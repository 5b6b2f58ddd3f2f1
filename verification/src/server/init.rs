//! `init` and `deinit`.
use crate::server::config::{self, TransportConfig};
use crate::server::ipc::{Response, ResponseData};
use crate::text;
use vstd::prelude::*;

verus! {

/// Undo stack that allows rolling back `init` steps if a later one failed. What undoes
/// a step is the caller's.
pub struct Rollback<U> {
    pub steps: Vec<(&'static str, U)>,
}

impl<U> Rollback<U> {
    pub fn new() -> (r: Rollback<U>)
        ensures
            r.steps@.len() == 0,
    {
        Rollback { steps: Vec::new() }
    }

    /// Records how to undo a step that was taken.
    pub fn push(&mut self, what: &'static str, undo: U)
        ensures
            final(self).steps@ == old(self).steps@.push((what, undo)),
    {
        self.steps.push((what, undo));
    }

    /// The undo steps in the order in which they are run: the last step taken is undone
    /// first.
    pub fn run(self) -> (r: Vec<(&'static str, U)>)
        ensures
            r@ == self.steps@.reverse(),
    {
        let mut steps = self.steps;
        let mut out: Vec<(&'static str, U)> = Vec::new();
        let ghost all = self.steps@;
        while steps.len() > 0
            invariant
                steps@.len() + out@.len() == all.len(),
                steps@ == all.take(steps@.len() as int),
                forall|i: int| 0 <= i < out@.len() ==> #[trigger] out@[i] == all[all.len() - 1 - i],
            decreases steps@.len(),
        {
            match steps.pop() {
                Some(step) => {
                    out.push(step);
                },
                None => {},
            }
            assert(steps@ =~= all.take(steps@.len() as int));
        }
        assert(out@ =~= all.reverse());
        out
    }
}

/// Every step that was taken is undone once, each before those that it was built on.
pub proof fn rollback_undoes_in_reverse<U>(steps: Seq<(&'static str, U)>, i: int, j: int)
    requires
        0 <= i < j < steps.len(),
    ensures
        steps.reverse().len() == steps.len(),
        steps.reverse()[steps.len() - 1 - j] == steps[j],
        steps.reverse()[steps.len() - 1 - i] == steps[i],
        steps.len() - 1 - j < steps.len() - 1 - i,
{
}

/// Why a failed step was not undone, as the user is told.
pub fn undo_failed(what: &str, e: &str) -> (r: String)
    ensures
        r@ == "Init failed; could not undo the "@ + what@ + " either ("@ + e@ + ")."@,
{
    let mut out = text::copied("Init failed; could not undo the ");
    out.append(what);
    out.append(" either (");
    out.append(e);
    out.append(").");
    out
}

/// The steps of `init` for a transport, in the order in which they are taken, with what
/// each leaves to undo.
#[derive(Clone, Copy, Debug, PartialEq, Eq, Structural)]
pub enum InitStep {
    /// Create the connectivity group at the backend.
    CreateGroup,
    /// Create the share's directory, with its config and an empty state database.
    CreateDirectory,
    /// Store the backend's credentials.
    StoreCredentials,
    /// Create the node and register it. The registration goes away with the group, so it
    /// needs no undo of its own.
    RegisterNode,
    /// Make a key and store it.
    StoreKey,
}

impl InitStep {
    /// What has to be undone if a later step fails.
    pub fn leaves(self) -> (r: Option<&'static str>)
        ensures
            match self {
                InitStep::CreateGroup => r matches Some(s) && s@ == "connectivity group"@,
                InitStep::CreateDirectory => r matches Some(s) && s@ == "share directory"@,
                _ => r is None,
            },
    {
        match self {
            InitStep::CreateGroup => Some("connectivity group"),
            InitStep::CreateDirectory => Some("share directory"),
            _ => None,
        }
    }
}

/// What `init` does for a share that may be created.
pub struct InitPlan {
    /// The text of the new `share.toml`.
    pub config_text: String,
    pub steps: Vec<InitStep>,
}

/// Plans `init`: only a share that is not there yet is set up.
pub fn up(share: &str, found: bool, display_name: &str, transport: &TransportConfig) -> (r: Result<
    InitPlan,
    String,
>)
    ensures
        if found {
            r matches Err(e) && e@ == "Share "@ + share@ + " already exists"@
        } else {
            r matches Ok(plan) && plan.config_text@ == config::template(display_name@, *transport)
                && plan.steps@ == (match *transport {
                TransportConfig::WispersConnect { .. } => seq![
                    InitStep::CreateGroup,
                    InitStep::CreateDirectory,
                    InitStep::StoreCredentials,
                    InitStep::RegisterNode,
                ],
                TransportConfig::Iroh {  } => seq![InitStep::CreateDirectory, InitStep::StoreKey],
            })
        },
{
    if found {
        let mut out = text::copied("Share ");
        out.append(share);
        out.append(" already exists");
        return Err(out);
    }
    let mut steps: Vec<InitStep> = Vec::new();
    match transport {
        TransportConfig::WispersConnect { .. } => {
            steps.push(InitStep::CreateGroup);
            steps.push(InitStep::CreateDirectory);
            steps.push(InitStep::StoreCredentials);
            steps.push(InitStep::RegisterNode);
            assert(steps@ =~= seq![
                InitStep::CreateGroup,
                InitStep::CreateDirectory,
                InitStep::StoreCredentials,
                InitStep::RegisterNode,
            ]);
        },
        TransportConfig::Iroh {  } => {
            steps.push(InitStep::CreateDirectory);
            steps.push(InitStep::StoreKey);
            assert(steps@ =~= seq![InitStep::CreateDirectory, InitStep::StoreKey]);
        },
    }
    Ok(InitPlan { config_text: config::render_template(display_name, transport), steps })
}

/// What the user is told once a share is set up.
pub fn initialised(share: &str, config_path: &str) -> (r: String)
    ensures
        r@ == "Share "@ + share@ + " initialised. Add its apps to "@ + config_path@
            + " and run `waserver serve "@ + share@ + "`."@,
{
    let mut out = text::copied("Share ");
    out.append(share);
    out.append(" initialised. Add its apps to ");
    out.append(config_path);
    out.append(" and run `waserver serve ");
    out.append(share);
    out.append("`.");
    out
}

/// What a daemon serves, as far as it said so.
pub open spec fn apps_hint(status: Option<Response>) -> Seq<char> {
    match status {
        Some(Response::Success { data: ResponseData::Status(s), .. }) => " serving "@
            + text::joined(
            s.apps@.map_values(|a: crate::server::ipc::AppData| a.id@),
            ", "@,
        ),
        _ => Seq::empty(),
    }
}

/// What is left to do to tear a share down.
#[derive(Clone, Copy, Debug, PartialEq, Eq, Structural)]
pub enum DownStep {
    /// Remove the connectivity group, which deregisters every node, then the directory.
    RemoveGroup,
    /// Remove the directory, with the config file and the state database.
    RemoveDirectory,
}

/// A share whose `init` never got as far as the group has none to remove; nor has one on
/// another transport.
pub open spec fn down_step(transport: TransportConfig, has_credentials: bool) -> DownStep {
    match transport {
        TransportConfig::WispersConnect { .. } => if has_credentials {
            DownStep::RemoveGroup
        } else {
            DownStep::RemoveDirectory
        },
        TransportConfig::Iroh {  } => DownStep::RemoveDirectory,
    }
}

/// Decides how a share is torn down. A share is not torn down while its server is still
/// running; `running` is `Some` where a daemon is reachable, with what it answered to a
/// request for its status, if it did so promptly. Its apps are then named in the
/// message.
pub fn down(
    share: &str,
    transport: &TransportConfig,
    has_credentials: bool,
    running: Option<Option<Response>>,
) -> (r: Result<DownStep, String>)
    ensures
        match running {
            Some(status) => r matches Err(e) && e@ == "share '"@ + share@ + "' has a running server"@
                + apps_hint(status) + "; stop it first with `waserver stop "@ + share@ + "`"@,
            None => r == Ok::<DownStep, String>(down_step(*transport, has_credentials)),
        },
{
    match running {
        Some(status) => {
            let mut out = text::copied("share '");
            out.append(share);
            out.append("' has a running server");
            let ghost head = out@;
            match &status {
                Some(Response::Success { data: ResponseData::Status(s), .. }) => {
                    let mut ids: Vec<String> = Vec::new();
                    let mut i: usize = 0;
                    while i < s.apps.len()
                        invariant
                            i <= s.apps@.len(),
                            ids@.len() == i,
                            forall|j: int| 0 <= j < i ==> (#[trigger] ids@[j])@ == s.apps@[j].id@,
                        decreases s.apps@.len() - i,
                    {
                        ids.push(text::copied(s.apps[i].id.as_str()));
                        i = i + 1;
                    }
                    assert(ids.deep_view() =~= s.apps@.map_values(
                        |a: crate::server::ipc::AppData| a.id@,
                    ));
                    out.append(" serving ");
                    out.append(text::join(&ids, ", ").as_str());
                },
                _ => {},
            }
            assert(out@ =~= head + apps_hint(status));
            out.append("; stop it first with `waserver stop ");
            out.append(share);
            out.append("`");
            Err(out)
        },
        None => match transport {
            TransportConfig::WispersConnect { .. } => {
                if has_credentials {
                    Ok(DownStep::RemoveGroup)
                } else {
                    Ok(DownStep::RemoveDirectory)
                }
            },
            TransportConfig::Iroh {  } => Ok(DownStep::RemoveDirectory),
        },
    }
}

/// The connectivity group is removed with a share that has one, so that no node of it stays
/// registered; and a running server's apps are named, all of them.
pub proof fn shares_are_torn_down_with_their_group(
    transport: TransportConfig,
    has_credentials: bool,
    status: crate::server::ipc::StatusData,
)
    ensures
        down_step(transport, has_credentials) == DownStep::RemoveGroup <==> has_credentials
            && transport is WispersConnect,
        apps_hint(
            Some(Response::Success { ok: true, data: ResponseData::Status(status) }),
        ) == " serving "@ + text::joined(
            status.apps@.map_values(|a: crate::server::ipc::AppData| a.id@),
            ", "@,
        ),
        apps_hint(None) == Seq::<char>::empty(),
{
}

} // verus!

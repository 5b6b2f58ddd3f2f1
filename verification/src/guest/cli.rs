//! The client's command line: what it prints.
use crate::guest::store::{Share, ShareState};
use crate::table::{align_tabs, tab_aligned};
use crate::text;
use crate::wire::Share as App;
use vstd::prelude::*;

verus! {

/// An app in a list: by its ID, and by its name where that says more.
pub open spec fn app_text(app: App) -> Seq<char> {
    if app.name@ == app.id@ {
        app.id@
    } else {
        app.id@ + " ("@ + app.name@ + ")"@
    }
}

pub open spec fn apps_text(apps: Seq<App>) -> Seq<char> {
    if apps.len() == 0 {
        "none yet"@
    } else {
        text::joined(apps.map_values(|a: App| app_text(a)), ", "@)
    }
}

/// The apps of a share in one line.
pub fn describe_apps(apps: &Vec<App>) -> (r: String)
    ensures
        r@ == apps_text(apps@),
{
    if apps.len() == 0 {
        return text::copied("none yet");
    }
    let mut parts: Vec<String> = Vec::new();
    let mut i: usize = 0;
    while i < apps.len()
        invariant
            i <= apps@.len(),
            parts@.len() == i,
            forall|j: int| 0 <= j < i ==> (#[trigger] parts@[j])@ == app_text(apps@[j]),
        decreases apps@.len() - i,
    {
        let a = &apps[i];
        let mut part = text::copied(a.id.as_str());
        if !text::same_text(a.name.as_str(), a.id.as_str()) {
            part.append(" (");
            part.append(a.name.as_str());
            part.append(")");
        }
        parts.push(part);
        i = i + 1;
    }
    assert(parts.deep_view() =~= apps@.map_values(|a: App| app_text(a)));
    text::join(&parts, ", ")
}

pub open spec fn state_text(state: ShareState) -> Seq<char> {
    match state {
        ShareState::Live => "ok"@,
        ShareState::Removed => "the share was removed by its host node"@,
        ShareState::Revoked => "this device's access was revoked"@,
    }
}

pub fn describe_state(state: ShareState) -> (r: &'static str)
    ensures
        r@ == state_text(state),
{
    match state {
        ShareState::Live => "ok",
        ShareState::Removed => "the share was removed by its host node",
        ShareState::Revoked => "this device's access was revoked",
    }
}

/// What `join` prints.
pub fn joined(share: &Share) -> (r: String)
    ensures
        r@ == "Joined share: "@ + share.name@ + "\n  Label: "@ + share.label@ + "\n  Apps: "@
            + apps_text(share.apps@) + "\n  Share id: "@ + share.id.0@ + "\n\n"@,
{
    let mut out = text::copied("Joined share: ");
    out.append(share.name.as_str());
    out.append("\n  Label: ");
    out.append(share.label.as_str());
    out.append("\n  Apps: ");
    out.append(describe_apps(&share.apps).as_str());
    out.append("\n  Share id: ");
    out.append(share.id.as_str());
    out.append("\n\n");
    out
}

/// The IDs of a share's apps in one cell of a table.
pub open spec fn ids_text(apps: Seq<App>) -> Seq<char> {
    let ids = text::joined(apps.map_values(|a: App| a.id@), ", "@);
    if ids.len() == 0 {
        "-"@
    } else {
        ids
    }
}

fn push_ids(out: &mut String, apps: &Vec<App>)
    ensures
        final(out)@ == old(out)@ + ids_text(apps@),
{
    let mut ids: Vec<String> = Vec::new();
    let mut i: usize = 0;
    while i < apps.len()
        invariant
            i <= apps@.len(),
            ids@.len() == i,
            forall|j: int| 0 <= j < i ==> (#[trigger] ids@[j])@ == apps@[j].id@,
        decreases apps@.len() - i,
    {
        ids.push(text::copied(apps[i].id.as_str()));
        i = i + 1;
    }
    assert(ids.deep_view() =~= apps@.map_values(|a: App| a.id@));
    let all = text::join(&ids, ", ");
    if all.as_str().is_empty() {
        out.append("-");
    } else {
        out.append(all.as_str());
    }
}

/// A share's line in the list.
pub open spec fn list_row(share: Share) -> Seq<char> {
    share.label@ + "\t"@ + share.name@ + "\t"@ + ids_text(share.apps@) + "\t"@ + state_text(
        share.state,
    ) + "\n"@
}

/// The lines of the first `n` shares.
pub open spec fn list_rows(shares: Seq<Share>, n: int) -> Seq<char>
    decreases n,
{
    if n <= 0 {
        Seq::empty()
    } else {
        list_rows(shares, n - 1) + list_row(shares[n - 1])
    }
}

/// The list of the joined shares, its columns separated by tabs.
pub fn list_lines(shares: &Vec<Share>) -> (r: String)
    ensures
        r@ == "Share\tName\tApps\tStatus\n"@ + list_rows(shares@, shares@.len() as int),
{
    let mut out = text::copied("Share\tName\tApps\tStatus\n");
    let ghost head = out@;
    let mut i: usize = 0;
    assert(out@ =~= head + list_rows(shares@, 0));
    while i < shares.len()
        invariant
            i <= shares@.len(),
            out@ == head + list_rows(shares@, i as int),
        decreases shares@.len() - i,
    {
        let ghost before = out@;
        let share = &shares[i];
        out.append(share.label.as_str());
        out.append("\t");
        out.append(share.name.as_str());
        out.append("\t");
        push_ids(&mut out, &share.apps);
        out.append("\t");
        out.append(describe_state(share.state));
        out.append("\n");
        i = i + 1;
        assert(out@ =~= before + list_row(*share));
        assert(out@ =~= head + list_rows(shares@, i as int));
    }
    out
}

/// What `list` prints.
pub fn list(shares: &Vec<Share>) -> (r: String)
    ensures
        r@ == if shares@.len() == 0 {
            "No shares joined. Use 'waclient join <invite_code>'.\n"@
        } else {
            tab_aligned(
                "Share\tName\tApps\tStatus\n"@ + list_rows(shares@, shares@.len() as int),
            )
        },
{
    if shares.len() == 0 {
        return text::copied("No shares joined. Use 'waclient join <invite_code>'.\n");
    }
    align_tabs(list_lines(shares).as_str())
}

/// A text filled up with spaces to sixteen characters.
pub open spec fn padded(s: Seq<char>) -> Seq<char> {
    if s.len() < 16 {
        s + Seq::new((16 - s.len()) as nat, |i: int| ' ')
    } else {
        s
    }
}

fn push_padded(out: &mut String, s: &str)
    ensures
        final(out)@ == old(out)@ + padded(s@),
{
    let mut n: usize = text::chars_of(s).len();
    let ghost start = out@;
    out.append(s);
    assert(out@ =~= start + s@ + Seq::new((n - s@.len()) as nat, |i: int| ' '));
    while n < 16
        invariant
            s@.len() <= n,
            n <= 16 || n == s@.len(),
            out@ == start + s@ + Seq::new((n - s@.len()) as nat, |i: int| ' '),
        decreases 16 - n,
    {
        let ghost before = out@;
        out.push(' ');
        n = n + 1;
        assert(out@ =~= start + s@ + Seq::new((n - s@.len()) as nat, |i: int| ' '));
    }
    assert(out@ =~= start + padded(s@));
}

/// The line for one app and where it is served.
pub open spec fn url_row(name: Seq<char>, url: Seq<char>) -> Seq<char> {
    "    "@ + padded(name) + " "@ + url + "\n"@
}

/// The lines for the first `n` apps.
pub open spec fn url_rows(apps: Seq<App>, urls: Seq<Seq<char>>, n: int) -> Seq<char>
    decreases n,
{
    if n <= 0 {
        Seq::empty()
    } else {
        url_rows(apps, urls, n - 1) + url_row(apps[n - 1].name@, urls[n - 1])
    }
}

/// Where the apps of a share are served: `urls` holds an address for each of them, or why
/// there is none.
pub fn print_app_urls(share: &Share, urls: &Vec<String>) -> (r: String)
    requires
        urls@.len() == share.apps@.len(),
    ensures
        r@ == if share.apps@.len() == 0 {
            "    (no apps yet)\n"@
        } else {
            url_rows(share.apps@, urls.deep_view(), share.apps@.len() as int)
        },
{
    if share.apps.len() == 0 {
        return text::copied("    (no apps yet)\n");
    }
    let mut out = String::new();
    let mut i: usize = 0;
    assert(out@ =~= url_rows(share.apps@, urls.deep_view(), 0));
    while i < share.apps.len()
        invariant
            i <= share.apps@.len(),
            urls@.len() == share.apps@.len(),
            out@ == url_rows(share.apps@, urls.deep_view(), i as int),
        decreases share.apps@.len() - i,
    {
        let ghost before = out@;
        assert(urls.deep_view()[i as int] == urls@[i as int]@);
        out.append("    ");
        push_padded(&mut out, share.apps[i].name.as_str());
        out.append(" ");
        out.append(urls[i].as_str());
        out.append("\n");
        i = i + 1;
        assert(out@ =~= before + url_row(share.apps@[i - 1].name@, urls@[i - 1]@));
    }
    out
}

/// A share that is served: its name, its label and how its host is reached.
pub fn serving_line(share: &Share) -> (r: String)
    ensures
        r@ == "  "@ + share.name@ + " ("@ + share.label@ + ") via "@ + share.transport.name()
            + ":\n"@,
{
    let mut out = text::copied("  ");
    out.append(share.name.as_str());
    out.append(" (");
    out.append(share.label.as_str());
    out.append(") via ");
    out.append(share.transport.as_str());
    out.append(":\n");
    out
}

/// A share that is no longer available, and how to clean it up.
pub fn report_dead_share(share: &Share) -> (r: String)
    ensures
        r@ == "  "@ + share.label@ + " ('"@ + share.name@ + "') is no longer available — "@
            + state_text(share.state) + ".\n    Run 'waclient remove "@ + share.label@
            + "' to clean it up.\n"@,
{
    let mut out = text::copied("  ");
    out.append(share.label.as_str());
    out.append(" ('");
    out.append(share.name.as_str());
    out.append("') is no longer available — ");
    out.append(describe_state(share.state));
    out.append(".\n    Run 'waclient remove ");
    out.append(share.label.as_str());
    out.append("' to clean it up.\n");
    out
}

/// What a refresh of a served share prints, by what it came to.
pub enum RefreshNote {
    /// Nothing changed.
    Silent,
    /// The share is dead now.
    Dead(String),
    /// The share's apps changed: a heading for the new list.
    Updated(String),
}

/// What a refresh of a served share prints.
pub fn refresh_note(changed: &Option<Share>) -> (r: RefreshNote)
    ensures
        match *changed {
            None => r is Silent,
            Some(share) => if share.state == ShareState::Live {
                r matches RefreshNote::Updated(s) && s@ == "Updated app list for "@ + share.name@
                    + " ("@ + share.label@ + "):\n"@
            } else {
                r matches RefreshNote::Dead(s) && s@ == "  "@ + share.label@ + " ('"@ + share.name@
                    + "') is no longer available — "@ + state_text(share.state)
                    + ".\n    Run 'waclient remove "@ + share.label@ + "' to clean it up.\n"@
            },
        },
{
    match changed {
        None => RefreshNote::Silent,
        Some(share) => {
            if share.state != ShareState::Live {
                return RefreshNote::Dead(report_dead_share(share));
            }
            let mut out = text::copied("Updated app list for ");
            out.append(share.name.as_str());
            out.append(" (");
            out.append(share.label.as_str());
            out.append("):\n");
            RefreshNote::Updated(out)
        },
    }
}

//-- What is printed --------------------------------------------------------------
/// The list has a line for every share, in their order: its label, its name, the IDs of all of
/// its apps, and how it stands.
pub proof fn lists_have_a_line_for_every_share(shares: Seq<Share>, k: int)
    ensures
        list_rows(shares, shares.len() as int) == text::joined(
            shares.map_values(|s: Share| list_row(s)),
            ""@,
        ),
        0 <= k < shares.len() ==> list_row(shares[k]) == shares[k].label@ + "\t"@ + shares[k].name@
            + "\t"@ + (if text::joined(shares[k].apps@.map_values(|a: App| a.id@), ", "@).len()
            == 0 {
            "-"@
        } else {
            text::joined(shares[k].apps@.map_values(|a: App| a.id@), ", "@)
        }) + "\t"@ + (match shares[k].state {
            ShareState::Live => "ok"@,
            ShareState::Removed => "the share was removed by its host node"@,
            ShareState::Revoked => "this device's access was revoked"@,
        }) + "\n"@,
{
    lemma_list_rows(shares, shares.len() as int);
    assert(shares.take(shares.len() as int) =~= shares);
}

proof fn lemma_list_rows(shares: Seq<Share>, n: int)
    requires
        0 <= n <= shares.len(),
    ensures
        list_rows(shares, n) == text::joined(
            shares.take(n).map_values(|s: Share| list_row(s)),
            ""@,
        ),
    decreases n,
{
    reveal_strlit("");
    let f = |s: Share| list_row(s);
    if n > 0 {
        lemma_list_rows(shares, n - 1);
        let before = shares.take(n - 1).map_values(f);
        let all = shares.take(n).map_values(f);
        assert(all =~= before.push(list_row(shares[n - 1])));
        assert(all.drop_last() =~= before);
        assert(text::joined(before, ""@) + ""@ + list_row(shares[n - 1]) =~= text::joined(
            before,
            ""@,
        ) + list_row(shares[n - 1]));
        if before.len() == 0 {
            assert(text::joined(before, ""@) + list_row(shares[n - 1]) =~= list_row(shares[n - 1]));
        }
    } else {
        assert(shares.take(0).map_values(f) =~= Seq::<Seq<char>>::empty());
    }
}

/// Every app is listed, in its place: by its ID, and by its name too where that is another.
pub proof fn descriptions_name_every_app(apps: Seq<App>, parts: Seq<Seq<char>>)
    requires
        parts.len() == apps.len(),
        forall|i: int|
            0 <= i < parts.len() ==> #[trigger] parts[i] == if apps[i].name@ == apps[i].id@ {
                apps[i].id@
            } else {
                apps[i].id@ + " ("@ + apps[i].name@ + ")"@
            },
    ensures
        apps.len() > 0 ==> apps_text(apps) == text::joined(parts, ", "@),
        apps.len() == 0 ==> apps_text(apps) == "none yet"@,
{
    assert(apps.map_values(|a: App| app_text(a)) =~= parts);
}

/// The address of every app is printed behind its name, one below the other.
pub proof fn addresses_stand_behind_their_apps(apps: Seq<App>, urls: Seq<Seq<char>>, n: int)
    requires
        0 <= n < apps.len(),
        urls.len() == apps.len(),
    ensures
        url_rows(apps, urls, 0) == Seq::<char>::empty(),
        url_rows(apps, urls, n + 1) == url_rows(apps, urls, n) + ("    "@ + padded(apps[n].name@)
            + " "@ + urls[n] + "\n"@),
        apps[n].name@.is_prefix_of(padded(apps[n].name@)),
        padded(apps[n].name@).len() == if apps[n].name@.len() < 16 {
            16
        } else {
            apps[n].name@.len()
        },
        forall|i: int|
            apps[n].name@.len() <= i < padded(apps[n].name@).len() ==> #[trigger] padded(
                apps[n].name@,
            )[i] == ' ',
{
    let name = apps[n].name@;
    assert(padded(name).subrange(0, name.len() as int) =~= name);
}

} // verus!

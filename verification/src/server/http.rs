//! HTTP forwarding from a guest's stream to an app on the host's side.
use crate::guest::proxy::Reply;
use crate::headers::ResponseKind;
use crate::text;
use vstd::prelude::*;

verus! {

/// How far a request has come on its way to the app.
#[derive(Clone, Copy, Debug, PartialEq, Eq, Structural)]
pub enum Stage {
    /// The app is being connected to.
    Connecting,
    /// HTTP is being set up.
    Handshaking,
    /// The request is sent, with its headers rewritten, and its response awaited.
    Sending,
    /// It is answered.
    Answered,
}

/// What happened on the way of a request to the app.
pub enum UpstreamEvent {
    Connected,
    ConnectFailed,
    HandshakeDone,
    HandshakeFailed,
    /// The app answered with that status; whether the request asked for an upgrade.
    Responded { status: u16, asked_upgrade: bool },
    SendFailed,
}

/// What is done next with a request.
pub enum UpstreamStep {
    /// Set up HTTP on the connection.
    Handshake,
    /// Rewrite the request and send it.
    Send,
    /// Rewrite the app's response and pass it on.
    PassOn(ResponseKind),
    /// Answer with the host's own response.
    Answer(Reply),
}

/// Which events can happen at a stage.
pub open spec fn expected(stage: Stage, event: UpstreamEvent) -> bool {
    match stage {
        Stage::Connecting => event is Connected || event is ConnectFailed,
        Stage::Handshaking => event is HandshakeDone || event is HandshakeFailed,
        Stage::Sending => event is Responded || event is SendFailed,
        Stage::Answered => false,
    }
}

/// The stage that an event leads to.
pub open spec fn stage_after(event: UpstreamEvent) -> Stage {
    match event {
        UpstreamEvent::Connected => Stage::Handshaking,
        UpstreamEvent::HandshakeDone => Stage::Sending,
        _ => Stage::Answered,
    }
}

/// What follows an event: the request goes on, or any failure becomes a 502.
pub open spec fn next(event: UpstreamEvent, step: UpstreamStep) -> bool {
    match event {
        UpstreamEvent::Connected => step is Handshake,
        UpstreamEvent::HandshakeDone => step is Send,
        UpstreamEvent::Responded { status, asked_upgrade } => step == UpstreamStep::PassOn(
            if status != 101 {
                ResponseKind::Plain
            } else if asked_upgrade {
                ResponseKind::Relay
            } else {
                ResponseKind::Unasked
            },
        ),
        _ => step matches UpstreamStep::Answer(a) && a.says(502, "upstream unavailable"@),
    }
}

/// Takes a request a step further. Always succeeds at the service level: upstream failures
/// are converted to 5xx responses rather than connection errors.
pub fn try_forward(stage: Stage, event: UpstreamEvent) -> (r: (Stage, UpstreamStep))
    requires
        expected(stage, event),
    ensures
        r.0 == stage_after(event),
        next(event, r.1),
{
    match event {
        UpstreamEvent::Connected => (Stage::Handshaking, UpstreamStep::Handshake),
        UpstreamEvent::HandshakeDone => (Stage::Sending, UpstreamStep::Send),
        UpstreamEvent::Responded { status, asked_upgrade } => (
            Stage::Answered,
            UpstreamStep::PassOn(
                if status != 101 {
                    ResponseKind::Plain
                } else if asked_upgrade {
                    ResponseKind::Relay
                } else {
                    ResponseKind::Unasked
                },
            ),
        ),
        _ => (
            Stage::Answered,
            UpstreamStep::Answer(Reply { status: 502, body: text::copied("upstream unavailable") }),
        ),
    }
}

/// What the app answers is passed on, whatever it is; where it cannot be reached, the guest is
/// told so by a 502.
pub proof fn apps_answer_for_themselves(event: UpstreamEvent, step: UpstreamStep)
    requires
        next(event, step),
    ensures
        event matches UpstreamEvent::Responded { status, asked_upgrade } ==> (step
            matches UpstreamStep::PassOn(kind) && (kind is Plain <==> status != 101) && (
        kind is Relay <==> status == 101 && asked_upgrade)),
        event is ConnectFailed || event is HandshakeFailed || event is SendFailed ==> (step
            matches UpstreamStep::Answer(a) && a.status == 502 && a.body@
            == "upstream unavailable"@),
        event is Connected ==> step is Handshake,
        event is HandshakeDone ==> step is Send,
{
}

} // verus!

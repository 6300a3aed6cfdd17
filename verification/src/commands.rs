use vstd::prelude::*;

use crate::model::BoundDir;
use crate::model::str_eq;
use crate::render::tenths_str;
use crate::render::tenths_to_string;
use crate::table::BoundTable;
use crate::table::mk_key;
use vstd::string::StringExecFns;

verus! {

/// A subscriber command, as the chat layer hands it to the engine.
#[derive(Debug)]
pub enum Command {
    /// First contact: greet the subscriber.
    Start,
    /// Show the command overview.
    Help,
    /// Fetch fresh readings now and render them.
    Status,
    /// Set (or overwrite) one directional bound for one sensor metric.
    SetBound { sensor_id: String, metric: String, dir: BoundDir, value: i64 },
}

/// What the chat layer should do in response to a command.
#[derive(Debug)]
pub enum Reply {
    /// Send this text to the subscriber.
    Text(String),
    /// Fetch readings now and send `status_text` of the outcome.
    FetchStatus,
}

/// The greeting sent on first contact.
pub open spec fn welcome_spec() -> Seq<char> {
    "Welcome! Use /help to list the commands."@
}

/// The command overview.
pub open spec fn help_spec() -> Seq<char> {
    "Commands: /start, /help, /status, and setting a min or max bound on a sensor metric."@
}

/// The confirmation text for a newly set bound.
pub open spec fn confirm_spec(sensor_id: Seq<char>, metric: Seq<char>, dir: BoundDir, value: int) -> Seq<char> {
    (match dir {
        BoundDir::Min => "Minimum bound set: "@,
        BoundDir::Max => "Maximum bound set: "@,
    }) + metric + " of "@ + sensor_id + " at "@ + tenths_str(value)
}

/// Renders the confirmation text for a newly set bound.
pub fn confirm_text(sensor_id: &str, metric: &str, dir: BoundDir, value: i64) -> (s: String)
    ensures
        s@ == confirm_spec(sensor_id@, metric@, dir, value as int),
{
    let mut s: String = match dir {
        BoundDir::Min => "Minimum bound set: ".to_owned(),
        BoundDir::Max => "Maximum bound set: ".to_owned(),
    };
    s.append(metric);
    s.append(" of ");
    s.append(sensor_id);
    s.append(" at ");
    let v = tenths_to_string(value);
    s.append(v.as_str());
    assert(s@ =~= confirm_spec(sensor_id@, metric@, dir, value as int));
    s
}

/// Applies one subscriber command to the threshold store and says what the
/// chat layer should send back. Only a bound-setting command changes the
/// store; a status request asks the caller to fetch fresh readings first.
pub fn apply_command(store: &mut BoundTable<i64>, subscriber: i64, cmd: &Command) -> (reply: Reply)
    requires
        old(store).wf(),
    ensures
        final(store).wf(),
        match *cmd {
            Command::SetBound { sensor_id, metric, dir, value } => {
                &&& final(store).map() == old(store).map().insert(
                    mk_key(subscriber, sensor_id@, metric@, dir),
                    value,
                )
                &&& match reply {
                    Reply::Text(t) => t@ == confirm_spec(sensor_id@, metric@, dir, value as int),
                    _ => false,
                }
            },
            Command::Start => *final(store) == *old(store) && (match reply {
                Reply::Text(t) => t@ == welcome_spec(),
                _ => false,
            }),
            Command::Help => *final(store) == *old(store) && (match reply {
                Reply::Text(t) => t@ == help_spec(),
                _ => false,
            }),
            Command::Status => *final(store) == *old(store) && (reply is FetchStatus),
        },
{
    match cmd {
        Command::Start => Reply::Text("Welcome! Use /help to list the commands.".to_owned()),
        Command::Help => Reply::Text(
            "Commands: /start, /help, /status, and setting a min or max bound on a sensor metric.".to_owned(),
        ),
        Command::Status => Reply::FetchStatus,
        Command::SetBound { sensor_id, metric, dir, value } => {
            store.set(subscriber, sensor_id.as_str(), metric.as_str(), *dir, *value);
            Reply::Text(confirm_text(sensor_id.as_str(), metric.as_str(), *dir, *value))
        },
    }
}

/// What `str::to_lowercase` returns: a function of the characters alone.
pub uninterp spec fn lower_of(s: Seq<char>) -> Seq<char>;

/// Relies on `str::to_lowercase`; its result is named `lower_of`, a function
/// of the characters alone.
#[verifier::external_body]
fn lowercase(s: &str) -> (r: String)
    ensures
        r@ == lower_of(s@),
{
    s.to_lowercase()
}

/// The reply to a plain chat message (one that is no command), chosen by the
/// lowercased text: three known phrases each have their fixed reply, and
/// anything else points the sender at the command overview.
pub open spec fn greeting_spec(lowered: Seq<char>) -> Seq<char> {
    if lowered == "hallo"@ {
        "👋 Hallo Julia! Wie kann ich helfen?"@
    } else if lowered == "wie geht's?"@ {
        "Mir geht es super! 🤖"@
    } else if lowered == "ich liebe dich"@ {
        "Ich liebe dich auch"@
    } else {
        "Ich habe dich nicht verstanden. Nutze /help für Befehle."@
    }
}

/// Picks the reply to a plain chat message, matching its text
/// case-insensitively.
pub fn greeting_reply(text: &str) -> (r: &'static str)
    ensures
        r@ == greeting_spec(lower_of(text@)),
{
    let low = lowercase(text);
    if str_eq(low.as_str(), "hallo") {
        "👋 Hallo Julia! Wie kann ich helfen?"
    } else if str_eq(low.as_str(), "wie geht's?") {
        "Mir geht es super! 🤖"
    } else if str_eq(low.as_str(), "ich liebe dich") {
        "Ich liebe dich auch"
    } else {
        "Ich habe dich nicht verstanden. Nutze /help für Befehle."
    }
}

} // verus!

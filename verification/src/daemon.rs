use vstd::prelude::*;
use crate::collectors::bpf::runtime::joined_text;
use crate::error::{error_parts, DaemonError};

verus! {

/// The delay before the bus connection is tried again.
pub const UBUS_RECONNECT_DELAY_MS: u32 = 1_000;

/// An error as the daemon writes it: its kind, a colon and its message.
pub open spec fn error_text(e: DaemonError) -> Seq<char> {
    error_parts(e).0 + ": "@ + error_parts(e).1
}

/// What the coordinator returns after a failed step, and the fatal message
/// it records, if any; a recorded fatal message also asks the daemon to
/// stop.
pub struct StepOutcome {
    pub error: DaemonError,
    pub fatal: Option<String>,
}

pub open spec fn fatal_text(o: StepOutcome) -> Option<Seq<char>> {
    match o.fatal {
        Some(m) => Some(m@),
        None => None,
    }
}

fn joined2(a: &str, b: &str) -> (r: String)
    ensures
        r@ == a@ + b@,
{
    let mut cs = crate::text::str_chars(a);
    let mut tail = crate::text::str_chars(b);
    cs.append(&mut tail);
    crate::text::string_from_chars(cs.as_slice())
}

fn texts3(a: &str, b: &DaemonError, c: &str) -> (r: String)
    ensures
        r@ == a@ + error_text(*b) + c@,
{
    let t = b.describe();
    joined_text(a, t.as_str(), c)
}

/// A failure `error` whose clean-up also failed with `cleanup`: the message
/// joins both behind `label`, is recorded as fatal and comes back as a
/// reload error.
fn fatal_pair(label: &str, error: &DaemonError, middle: &str, cleanup: &DaemonError) -> (r: StepOutcome)
    ensures
        ({
            let m = label@ + error_text(*error) + middle@ + error_text(*cleanup);
            &&& r.error == DaemonError::Reload(r.fatal->0)
            &&& fatal_text(r) == Some(m)
        }),
{
    let head = texts3(label, error, middle);
    let tail = cleanup.describe();
    let message = joined2(head.as_str(), tail.as_str());
    let m2 = message.clone();
    StepOutcome { error: DaemonError::Reload(message), fatal: Some(m2) }
}

/// A reload candidate that failed with `primary` is shut down: where that
/// went well the primary error stands; where it failed too, both are joined
/// into a fatal reload error.
pub fn abort_reload_candidate(primary: DaemonError, cleanup: Result<(), DaemonError>) -> (r: StepOutcome)
    ensures
        cleanup is Ok ==> r.error == primary && r.fatal is None,
        cleanup matches Err(c) ==> r.error == DaemonError::Reload(r.fatal->0) && fatal_text(r) == Some(
            "candidate cleanup: "@ + error_text(primary) + "; cleanup failed: "@ + error_text(c),
        ),
{
    match cleanup {
        Ok(()) => StepOutcome { error: primary, fatal: None },
        Err(c) => fatal_pair("candidate cleanup: ", &primary, "; cleanup failed: ", &c),
    }
}

/// A runtime that failed to start with `error` is shut down: where that
/// went well the error stands; where it failed too, both are joined into a
/// fatal reload error.
pub fn abort_startup(error: DaemonError, cleanup: Result<(), DaemonError>) -> (r: StepOutcome)
    ensures
        cleanup is Ok ==> r.error == error && r.fatal is None,
        cleanup matches Err(c) ==> r.error == DaemonError::Reload(r.fatal->0) && fatal_text(r) == Some(
            "startup cleanup: "@ + error_text(error) + "; cleanup failed: "@ + error_text(c),
        ),
{
    match cleanup {
        Ok(()) => StepOutcome { error, fatal: None },
        Err(c) => fatal_pair("startup cleanup: ", &error, "; cleanup failed: ", &c),
    }
}

/// The text a failed clean-up adds to a message.
pub open spec fn failure_suffix(label: Seq<char>, e: Result<(), DaemonError>) -> Seq<char> {
    match e {
        Ok(()) => Seq::empty(),
        Err(x) => label + error_text(x),
    }
}

/// A reload whose collection timer could not be set: the timer is set back
/// (`timer`) and the candidate shut down (`cleanup`); where both went well
/// the primary error stands, else every failure is joined into a fatal
/// reload error.
pub fn abort_reload_after_timer_failure(
    primary: DaemonError,
    timer: Result<(), DaemonError>,
    cleanup: Result<(), DaemonError>,
) -> (r: StepOutcome)
    ensures
        cleanup is Ok && timer is Ok ==> r.error == primary && r.fatal is None,
        !(cleanup is Ok && timer is Ok) ==> r.error == DaemonError::Reload(r.fatal->0) && fatal_text(r)
            == Some(
            error_text(primary) + failure_suffix("; candidate cleanup failed: "@, cleanup)
                + failure_suffix("; timer rollback failed: "@, timer),
        ),
{
    if cleanup.is_ok() && timer.is_ok() {
        return StepOutcome { error: primary, fatal: None };
    }
    let mut message = primary.describe();
    match &cleanup {
        Ok(()) => {},
        Err(c) => {
            let t = c.describe();
            message = joined_text(message.as_str(), "; candidate cleanup failed: ", t.as_str());
        },
    }
    match &timer {
        Ok(()) => {},
        Err(t) => {
            let x = t.describe();
            message = joined_text(message.as_str(), "; timer rollback failed: ", x.as_str());
        },
    }
    let m2 = message.clone();
    StepOutcome { error: DaemonError::Reload(message), fatal: Some(m2) }
}

/// What a collection tick leaves: whether the runtime is set back to its
/// checkpoint, what the tick returns, and the fatal message it records.
pub struct CollectionOutcome {
    pub restore: bool,
    pub result: Result<(), DaemonError>,
    pub fatal: Option<String>,
}

/// A collection tick that `collected` (`Err` where collecting or checking
/// the snapshot failed) and then set its next timer (`schedule`): a failed
/// collection sets the runtime back; a failed timer is fatal, its message
/// carrying the collection's error too where there was one.
pub fn collection_outcome(collected: Result<(), DaemonError>, schedule: Result<(), DaemonError>) -> (r:
    CollectionOutcome)
    ensures
        r.restore == collected is Err,
        schedule is Ok ==> r.result == collected && r.fatal is None,
        schedule matches Err(s) ==> ({
            let m = match collected {
                Ok(()) => "collection timer failed: "@ + error_text(s),
                Err(c) => error_text(c) + "; collection timer failed: "@ + error_text(s),
            };
            &&& r.fatal matches Some(f) && f@ == m
            &&& r.result == Err::<(), DaemonError>(DaemonError::Transport(r.fatal->0))
        }),
{
    let restore = collected.is_err();
    match schedule {
        Ok(()) => CollectionOutcome { restore, result: collected, fatal: None },
        Err(s) => {
            let st = s.describe();
            let message = match &collected {
                Ok(()) => joined2("collection timer failed: ", st.as_str()),
                Err(c) => joined2(c.describe().as_str(), "; collection timer failed: "),
            };
            let message = match &collected {
                Ok(()) => message,
                Err(_) => joined2(message.as_str(), st.as_str()),
            };
            let m2 = message.clone();
            CollectionOutcome { restore, result: Err(DaemonError::Transport(message)), fatal: Some(m2) }
        },
    }
}

/// A failed reconnect: where the retry timer was set, its error stands;
/// where that failed too, both are joined into a fatal transport error.
pub fn reconnect_outcome(error: DaemonError, retry: Result<(), DaemonError>) -> (r: StepOutcome)
    ensures
        retry is Ok ==> r.error == error && r.fatal is None,
        retry matches Err(s) ==> r.error == DaemonError::Transport(r.fatal->0) && fatal_text(r) == Some(
            error_text(error) + "; reconnect timer failed: "@ + error_text(s),
        ),
{
    match retry {
        Ok(()) => StepOutcome { error, fatal: None },
        Err(s) => {
            let head = joined2(error.describe().as_str(), "; reconnect timer failed: ");
            let tail = s.describe();
            let message = joined2(head.as_str(), tail.as_str());
            let m2 = message.clone();
            StepOutcome { error: DaemonError::Transport(message), fatal: Some(m2) }
        },
    }
}

/// Shutting down the runtime (where there is one) and the transport: both
/// errors are joined into a platform error; a single one is returned as it
/// came.
pub fn shutdown_outcome(runtime_error: Option<DaemonError>, transport_error: Option<DaemonError>) -> (r:
    Result<(), DaemonError>)
    ensures
        runtime_error is None && transport_error is None ==> r is Ok,
        runtime_error is Some && transport_error is None ==> r == Err::<(), DaemonError>(runtime_error->0),
        runtime_error is None && transport_error is Some ==> r == Err::<(), DaemonError>(transport_error->0),
        runtime_error is Some && transport_error is Some ==> (r matches Err(DaemonError::Platform(m))
            && m@ == error_text(runtime_error->0) + "; transport cleanup failed: "@ + error_text(
            transport_error->0,
        )),
{
    match (runtime_error, transport_error) {
        (None, None) => Ok(()),
        (Some(e), None) => Err(e),
        (None, Some(e)) => Err(e),
        (Some(a), Some(b)) => {
            let head = joined2(a.describe().as_str(), "; transport cleanup failed: ");
            let tail = b.describe();
            Err(DaemonError::Platform(joined2(head.as_str(), tail.as_str())))
        },
    }
}

/// A control plane that failed to install with `error`: the runtime and
/// transport are shut down (`cleanup`); where that failed too, both are
/// joined into a platform error.
pub fn install_control_outcome(error: DaemonError, cleanup: Result<(), DaemonError>) -> (r: DaemonError)
    ensures
        cleanup is Ok ==> r == error,
        cleanup matches Err(c) ==> (r matches DaemonError::Platform(m) && m@ == error_text(error)
            + "; startup cleanup failed: "@ + error_text(c)),
{
    match cleanup {
        Ok(()) => error,
        Err(c) => {
            let head = joined2(error.describe().as_str(), "; startup cleanup failed: ");
            let tail = c.describe();
            DaemonError::Platform(joined2(head.as_str(), tail.as_str()))
        },
    }
}

/// After a committed reload the old runtime is shut down; a failure there is
/// recorded as fatal.
pub fn postcommit_fatal(cleanup: Result<(), DaemonError>) -> (r: Option<String>)
    ensures
        cleanup is Ok ==> r is None,
        cleanup matches Err(c) ==> (r matches Some(m) && m@
            == "reload committed; postcommit old runtime cleanup failed: "@ + error_text(c)),
{
    match cleanup {
        Ok(()) => None,
        Err(c) => {
            let t = c.describe();
            Some(joined2("reload committed; postcommit old runtime cleanup failed: ", t.as_str()))
        },
    }
}

} // verus!

use vstd::prelude::*;

verus! {

/// Why an operation of the daemon failed, by the part that failed.
#[derive(Clone, Debug, Eq, PartialEq)]
pub enum DaemonError {
    Transport(String),
    Collection(String),
    Reload(String),
    Serialization(String),
    Platform(String),
}

/// The kind of an error and its message, taken by value.
pub open spec fn error_parts(e: DaemonError) -> (Seq<char>, Seq<char>) {
    match e {
        DaemonError::Transport(m) => ("transport"@, m@),
        DaemonError::Collection(m) => ("collection"@, m@),
        DaemonError::Reload(m) => ("reload"@, m@),
        DaemonError::Serialization(m) => ("serialization"@, m@),
        DaemonError::Platform(m) => ("platform"@, m@),
    }
}

/// `e` is a reload error whose message is `m`.
pub open spec fn is_reload_error(e: DaemonError, m: Seq<char>) -> bool {
    e matches DaemonError::Reload(text) && text@ == m
}

impl DaemonError {
    pub fn transport(message: &str) -> (r: Self)
        ensures
            r matches DaemonError::Transport(m) && m@ == message@,
    {
        DaemonError::Transport(message.to_owned())
    }

    pub fn collection(message: &str) -> (r: Self)
        ensures
            r matches DaemonError::Collection(m) && m@ == message@,
    {
        DaemonError::Collection(message.to_owned())
    }

    pub fn reload(message: &str) -> (r: Self)
        ensures
            is_reload_error(r, message@),
    {
        DaemonError::Reload(message.to_owned())
    }

    pub fn platform(message: &str) -> (r: Self)
        ensures
            r matches DaemonError::Platform(m) && m@ == message@,
    {
        DaemonError::Platform(message.to_owned())
    }

    /// The error as text: its kind, a colon and a space, and its message.
    pub fn describe(&self) -> (r: String)
        ensures
            r@ == error_parts(*self).0 + ": "@ + error_parts(*self).1,
    {
        let (kind, message) = match self {
            DaemonError::Transport(m) => ("transport", m),
            DaemonError::Collection(m) => ("collection", m),
            DaemonError::Reload(m) => ("reload", m),
            DaemonError::Serialization(m) => ("serialization", m),
            DaemonError::Platform(m) => ("platform", m),
        };
        let mut r = kind.to_owned();
        r.append(": ");
        r.append(message.as_str());
        r
    }
}

} // verus!

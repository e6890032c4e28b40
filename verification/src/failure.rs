use vstd::prelude::*;
use vstd::string::*;

verus! {

/// How severe a failure is.
#[derive(Debug, Clone, Copy, PartialEq, Eq)]
pub enum FailureType {
    Fatal,
    Warning,
}

/// A failure: the description of the underlying error, and an optional
/// context message (empty when there is none).
#[derive(Debug, Clone)]
pub enum Failure {
    Fatal(String, String),
    Warning(String, String),
}

impl Failure {
    /// The severity of this failure, as a spec value.
    pub open spec fn kind(&self) -> FailureType {
        match self {
            Failure::Fatal(_, _) => FailureType::Fatal,
            Failure::Warning(_, _) => FailureType::Warning,
        }
    }

    /// The description of the underlying error.
    pub open spec fn error_text(&self) -> Seq<char> {
        match self {
            Failure::Fatal(e, _) => e@,
            Failure::Warning(e, _) => e@,
        }
    }

    /// The context message.
    pub open spec fn message(&self) -> Seq<char> {
        match self {
            Failure::Fatal(_, m) => m@,
            Failure::Warning(_, m) => m@,
        }
    }

    /// This failure has severity `kind`, error description `text` and no
    /// context message.
    pub open spec fn is(&self, kind: FailureType, text: Seq<char>) -> bool {
        self.kind() == kind && self.error_text() == text && self.message() == Seq::<char>::empty()
    }

    /// A failure of severity `kind` that describes `error`, with no context
    /// message.
    pub fn new(error: String, kind: FailureType) -> (f: Failure)
        ensures
            f.is(kind, error@),
    {
        match kind {
            FailureType::Fatal => Failure::Fatal(error, String::new()),
            FailureType::Warning => Failure::Warning(error, String::new()),
        }
    }

    /// A failure of severity `kind` that describes `error`, with the context
    /// message `message`.
    pub fn with_message(error: String, message: &str, kind: FailureType) -> (f: Failure)
        ensures
            f.kind() == kind,
            f.error_text() == error@,
            f.message() == message@,
    {
        match kind {
            FailureType::Fatal => Failure::Fatal(error, String::from_str(message)),
            FailureType::Warning => Failure::Warning(error, String::from_str(message)),
        }
    }

    /// The text that reports the failure: the context message, a colon and
    /// the error, or the error alone when there is no message; then a space
    /// and a line break.
    pub open spec fn report(&self) -> Seq<char> {
        if self.message().len() == 0 {
            self.error_text() + " \n"@
        } else {
            self.message() + ": "@ + self.error_text() + " \n"@
        }
    }

    /// The text that reports the failure, up to the line break after which
    /// a backtrace of the error would follow; the failure keeps no
    /// backtrace.
    pub fn describe(&self) -> (s: String)
        ensures
            s@ == self.report(),
    {
        let (e, msg) = match self {
            Failure::Fatal(e, msg) => (e, msg),
            Failure::Warning(e, msg) => (e, msg),
        };
        let mut s = if msg.as_str().unicode_len() == 0 {
            e.clone()
        } else {
            let mut t = msg.clone();
            t.append(": ");
            t.append(e.as_str());
            t
        };
        s.append(" \n");
        s
    }

    pub fn failure_type(&self) -> (t: FailureType)
        ensures
            t == self.kind(),
    {
        match self {
            Failure::Fatal(_, _) => FailureType::Fatal,
            Failure::Warning(_, _) => FailureType::Warning,
        }
    }
}

} // verus!

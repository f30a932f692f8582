//! Errors in the contents of a column.
use vstd::prelude::*;

verus! {

/// A cell of a column that could not be used.
#[derive(Debug)]
pub struct DecodeColumnError {
    path: String,
    error: DecodeColErrorKind,
}

#[derive(Debug)]
enum DecodeColErrorKind {
    UnexpectedNull,
    InvalidValue { reason: String },
}

/// What a `DecodeColumnError` says.
pub enum DecodeColumnFault {
    UnexpectedNull { path: Seq<char> },
    InvalidValue { path: Seq<char>, reason: Seq<char> },
}

/// The text that tells a user of a fault.
pub open spec fn fault_text(fault: DecodeColumnFault) -> Seq<char> {
    match fault {
        DecodeColumnFault::UnexpectedNull { path } => "unexpected null in column "@ + path,
        DecodeColumnFault::InvalidValue { path, reason } => "invalid value in column "@ + path
            + ": "@ + reason,
    }
}

impl View for DecodeColumnError {
    type V = DecodeColumnFault;

    closed spec fn view(&self) -> DecodeColumnFault {
        match self.error {
            DecodeColErrorKind::UnexpectedNull => DecodeColumnFault::UnexpectedNull {
                path: self.path@,
            },
            DecodeColErrorKind::InvalidValue { reason } => DecodeColumnFault::InvalidValue {
                path: self.path@,
                reason: reason@,
            },
        }
    }
}

impl DecodeColumnError {
    pub fn unexpected_null(col: &str) -> (r: DecodeColumnError)
        ensures
            r@ == (DecodeColumnFault::UnexpectedNull { path: col@ }),
    {
        DecodeColumnError { path: col.to_owned(), error: DecodeColErrorKind::UnexpectedNull }
    }

    pub fn invalid_value(col: &str, reason: &str) -> (r: DecodeColumnError)
        ensures
            r@ == (DecodeColumnFault::InvalidValue { path: col@, reason: reason@ }),
    {
        DecodeColumnError {
            path: col.to_owned(),
            error: DecodeColErrorKind::InvalidValue { reason: reason.to_owned() },
        }
    }

    /// The text that tells a user of the error.
    pub fn message(&self) -> (r: String)
        ensures
            r@ == fault_text(self@),
    {
        match &self.error {
            DecodeColErrorKind::UnexpectedNull => {
                let mut out: String = "unexpected null in column ".to_owned();
                out.append(self.path.as_str());
                out
            },
            DecodeColErrorKind::InvalidValue { reason } => {
                let mut out: String = "invalid value in column ".to_owned();
                out.append(self.path.as_str());
                out.append(": ");
                out.append(reason.as_str());
                out
            },
        }
    }
}

impl Clone for DecodeColumnError {
    fn clone(&self) -> (r: Self)
        ensures
            r@ == self@,
    {
        DecodeColumnError {
            path: self.path.clone(),
            error: match &self.error {
                DecodeColErrorKind::UnexpectedNull => DecodeColErrorKind::UnexpectedNull,
                DecodeColErrorKind::InvalidValue { reason } => DecodeColErrorKind::InvalidValue {
                    reason: reason.clone(),
                },
            },
        }
    }
}

/// The text that tells of a fault starts with what is wrong and ends with the
/// column, or with the reason behind the column.
pub proof fn faults_are_told_so(path: Seq<char>, reason: Seq<char>)
    ensures
        fault_text(DecodeColumnFault::UnexpectedNull { path }) == "unexpected null in column "@
            + path,
        fault_text(DecodeColumnFault::InvalidValue { path, reason }) == "invalid value in column "@
            + path + seq![':', ' '] + reason,
{
    reveal_strlit(": ");
    assert(": "@ =~= seq![':', ' ']);
}

} // verus!

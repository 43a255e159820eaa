//! The error taxonomy of the library.

use vstd::prelude::*;

verus! {

/// Every failure the library reports. Configuration problems come as
/// `Validation`, failures of a single log stream as `LogError`, failures of
/// the output channels as `StdErr`, failures of the cluster api as
/// `Kubernetes` (operation context, detail), and everything else as `Other`.
#[derive(Debug)]
pub enum Errors {
    Validation(String),
    LogError(String),
    StdErr(String),
    Kubernetes(String, String),
    Other(String),
}

impl Errors {
    /// The human-readable text of the error: the payload in backquotes, and
    /// for `Kubernetes` the operation context followed by the detail.
    pub fn message(&self) -> (r: String)
        ensures
            r@ == self.spec_message(),
    {
        match self {
            Errors::Validation(s) => quoted(s),
            Errors::LogError(s) => quoted(s),
            Errors::StdErr(s) => quoted(s),
            Errors::Kubernetes(ctx, detail) => {
                let mut r = String::from_str("api failled for `");
                r.append(ctx.as_str());
                r.append("`, detail: `");
                r.append(detail.as_str());
                r.append("`");
                r
            },
            Errors::Other(s) => quoted(s),
        }
    }

    /// What `message` returns.
    pub open spec fn spec_message(&self) -> Seq<char> {
        match self {
            Errors::Validation(s) => "`"@ + s@ + "`"@,
            Errors::LogError(s) => "`"@ + s@ + "`"@,
            Errors::StdErr(s) => "`"@ + s@ + "`"@,
            Errors::Kubernetes(ctx, detail) => "api failled for `"@ + ctx@ + "`, detail: `"@
                + detail@ + "`"@,
            Errors::Other(s) => "`"@ + s@ + "`"@,
        }
    }
}

/// The given text in backquotes.
fn quoted(s: &String) -> (r: String)
    ensures
        r@ == "`"@ + s@ + "`"@,
{
    let mut r = String::from_str("`");
    r.append(s.as_str());
    r.append("`");
    r
}

} // verus!

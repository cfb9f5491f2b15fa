//! Run control: the errors a run surfaces and the terminal colors the
//! reports use.

use vstd::prelude::*;

verus! {

/// An error surfaced by the orchestrated run, with its message.
#[derive(Clone, Debug)]
pub struct NefaxError {
    pub msg: String,
}

impl NefaxError {
    /// The error's message.
    pub fn message(&self) -> (r: &str)
        ensures
            r@ == self.msg@,
    {
        self.msg.as_str()
    }
}

/// Fail when the user requested cancellation: a partial index may have been
/// flushed, and the caller surfaces that.
pub fn check_for_cancel(cancel_requested: bool) -> (r: Result<(), NefaxError>)
    ensures
        r is Ok <==> !cancel_requested,
        r matches Err(e) ==> e.msg@ == "Nefaxing cancelled by user; partial index was flushed"@,
{
    if cancel_requested {
        Err(
            NefaxError {
                msg: String::from_str("Nefaxing cancelled by user; partial index was flushed"),
            },
        )
    } else {
        Ok(())
    }
}

/// Apply the strict-error policy after the walk and workers have been
/// joined: in strict mode the first recorded walk error fails the run with
/// that message; otherwise skipped paths are tolerated.
pub fn check_for_initial_error_or_skipped_paths(strict: bool, first_error: &Option<String>) -> (r:
    Result<(), NefaxError>)
    ensures
        r is Ok <==> !(strict && first_error is Some),
        r matches Err(e) ==> first_error matches Some(m) && e.msg@ == m@,
{
    if strict {
        match first_error {
            Some(m) => Err(NefaxError { msg: m.clone() }),
            None => Ok(()),
        }
    } else {
        Ok(())
    }
}

/// Refuse to index a tree owned by the superuser: its owner uid must not be
/// zero.
pub fn check_for_root(owner_uid: u32) -> (r: Result<(), NefaxError>)
    ensures
        r is Ok <==> owner_uid != 0,
{
    if owner_uid == 0 {
        Err(NefaxError { msg: String::from_str("Cannot index root-owned directory") })
    } else {
        Ok(())
    }
}

/// ANSI color codes for terminal output.
pub struct Colors;

impl Colors {
    pub const ADDED: &'static str = "\x1b[32m";

    pub const REMOVED: &'static str = "\x1b[31m";

    pub const MODIFIED: &'static str = "\x1b[33m";

    pub const BRAND: &'static str = "\x1b[1;36m";

    pub const RESET: &'static str = "\x1b[0m";

    /// Wrap a text in a color code and the reset code.
    pub fn colorize(color: &str, text: &str) -> (r: String)
        ensures
            r@ == color@ + text@ + Colors::RESET@,
    {
        let mut r = String::from_str(color);
        r.append(text);
        r.append(Colors::RESET);
        r
    }
}

} // verus!

//! Subprocesses as the actions see them: argument lists going in, an exit
//! status and two byte streams coming out.

use crate::order;
use crate::text;
use crate::types::{BuildError, BuildErrorView};
use vstd::prelude::*;

verus! {

/// What a finished subprocess left behind.
#[derive(Debug)]
pub struct CmdOutput {
    /// Whether it exited with status zero.
    pub success: bool,
    /// Its exit code; absent where a signal ended it.
    pub code: Option<i32>,
    /// Captured standard output.
    pub stdout: Vec<u8>,
    /// Captured standard error.
    pub stderr: Vec<u8>,
}

/// The text of a byte stream without the white space around it.
pub open spec fn trimmed_text(bytes: Seq<u8>) -> Seq<char> {
    text::trimmed(text::utf8_lossy(bytes))
}

/// The text of a byte stream without the white space around it.
pub fn stream_text(bytes: &Vec<u8>) -> (r: String)
    ensures
        r@ == trimmed_text(bytes@),
{
    text::trim(&text::lossy(bytes.as_slice()))
}

/// The error that a subprocess ended with, if it did: its exit code, or -1
/// where there is none, and its trimmed standard error.
pub open spec fn status_error(out: CmdOutput) -> Option<BuildErrorView> {
    if out.success {
        None
    } else {
        Some(
            BuildErrorView::CommandFailed {
                exit_code: match out.code {
                    Some(c) => c,
                    None => (-1) as i32,
                },
                stderr: trimmed_text(out.stderr@),
            },
        )
    }
}

/// What a check without a value holds.
pub open spec fn unit_error(r: Result<(), BuildError>) -> Option<BuildErrorView> {
    match r {
        Ok(_) => None,
        Err(e) => Some(e@),
    }
}

/// Maps a non-zero exit status into [`BuildError::CommandFailed`].
pub fn check_status(out: &CmdOutput) -> (r: Result<(), BuildError>)
    ensures
        unit_error(r) == status_error(*out),
{
    if out.success {
        Ok(())
    } else {
        Err(
            BuildError::CommandFailed {
                exit_code: match out.code {
                    Some(c) => c,
                    None => -1,
                },
                stderr: stream_text(&out.stderr),
            },
        )
    }
}

/// Appends an argument.
pub fn push_arg(args: &mut Vec<String>, arg: &str)
    ensures
        order::text_views(final(args)@) == order::text_views(old(args)@).push(arg@),
{
    args.push(arg.to_owned());
    assert(order::text_views(args@) =~= order::text_views(old(args)@).push(arg@));
}

/// An empty argument list.
pub fn no_args() -> (r: Vec<String>)
    ensures
        order::text_views(r@) == Seq::<Seq<char>>::empty(),
{
    let r: Vec<String> = Vec::new();
    assert(order::text_views(r@) =~= Seq::<Seq<char>>::empty());
    r
}

} // verus!

//! The outcome of running a command-line tool.
use vstd::prelude::*;

use crate::text::{append_str, int_text, owned, push_int, string_from_utf8, string_from_utf8_lossy, utf8_error_text, utf8_lossy};

verus! {

/// Why a command did not produce its output.
#[derive(Debug, Clone)]
pub enum ExecError {
    Timeout,
    IoError(String),
    NonZeroExit { code: Option<i32>, stderr: String },
}

/// What `{:?}` writes for an optional exit code.
pub open spec fn code_text(code: Option<i32>) -> Seq<char> {
    match code {
        Some(c) => "Some("@ + int_text(c as int) + ")"@,
        None => "None"@,
    }
}

/// The message of an `ExecError`.
pub open spec fn exec_error_text(e: ExecError) -> Seq<char> {
    match e {
        ExecError::Timeout => "Command timed out"@,
        ExecError::IoError(m) => "IO error: "@ + m@,
        ExecError::NonZeroExit { code, stderr } => "Exit code "@ + code_text(code) + ": "@ + stderr@,
    }
}

impl ExecError {
    /// The message shown for this error.
    pub fn message(&self) -> (s: String)
        ensures
            s@ == exec_error_text(*self),
    {
        match self {
            ExecError::Timeout => owned("Command timed out"),
            ExecError::IoError(m) => {
                let mut s = owned("IO error: ");
                append_str(&mut s, m.as_str());
                s
            },
            ExecError::NonZeroExit { code, stderr } => {
                let mut s = owned("Exit code ");
                match code {
                    Some(c) => {
                        append_str(&mut s, "Some(");
                        push_int(&mut s, *c as i64);
                        append_str(&mut s, ")");
                    },
                    None => append_str(&mut s, "None"),
                }
                append_str(&mut s, ": ");
                append_str(&mut s, stderr.as_str());
                proof {
                    assert(s@ =~= exec_error_text(*self));
                }
                s
            },
        }
    }
}

/// What a finished command amounts to: on success its standard output as UTF-8
/// text, else `NonZeroExit` with the exit code and the standard error (lossily
/// decoded).
pub fn exec_outcome(success: bool, code: Option<i32>, stdout: Vec<u8>, stderr: &[u8]) -> (r: Result<String, ExecError>)
    ensures
        success ==> match r {
            Ok(s) => vstd::utf8::valid_utf8(stdout@) && s@ == vstd::utf8::decode_utf8(stdout@),
            Err(ExecError::IoError(m)) => !vstd::utf8::valid_utf8(stdout@) && m@ == utf8_error_text(stdout@),
            _ => false,
        },
        !success ==> match r {
            Err(ExecError::NonZeroExit { code: c, stderr: e }) => c == code && e@ == utf8_lossy(stderr@),
            _ => false,
        },
{
    if success {
        match string_from_utf8(stdout) {
            Ok(s) => Ok(s),
            Err(m) => Err(ExecError::IoError(m)),
        }
    } else {
        Err(ExecError::NonZeroExit { code, stderr: string_from_utf8_lossy(stderr) })
    }
}

} // verus!

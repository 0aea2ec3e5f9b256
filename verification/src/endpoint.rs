//! The reply side of the MySQL endpoint: what is sent for the outcome of an action.

use vstd::prelude::*;

use crate::error::ErrorCode;
use crate::error::ErrorKind;

verus! {

/// What is to be done with the outcome of an action.
#[derive(Debug)]
pub enum Reply<T> {
    /// Send the data.
    Data(T),
    /// Send the error; the outcome of sending is the outcome of the action.
    Error(ErrorCode),
    /// Send the error, then fail with it whatever sending came to: the
    /// session is gone and the server has to know.
    ErrorThenAbort(ErrorCode),
}

/// The reply for an outcome: data for success, the error otherwise, and the
/// error with an abort where the session was aborted.
pub open spec fn reply_for<T>(outcome: Result<T, ErrorCode>) -> Reply<T> {
    match outcome {
        Ok(data) => Reply::Data(data),
        Err(error) => if error.kind == ErrorKind::AbortedSession {
            Reply::ErrorThenAbort(error)
        } else {
            Reply::Error(error)
        },
    }
}

/// Decides what is to be done with the outcome of an action.
pub fn classify_outcome<T>(outcome: Result<T, ErrorCode>) -> (r: Reply<T>)
    ensures
        r == reply_for(outcome),
{
    match outcome {
        Ok(data) => Reply::Data(data),
        Err(error) => {
            match error.kind {
                ErrorKind::AbortedSession => Reply::ErrorThenAbort(error),
                _ => Reply::Error(error),
            }
        },
    }
}

/// An endpoint of the MySQL protocol: how results and errors are written to a client.
pub trait IMySQLEndpoint<Writer> {
    /// What a successful action hands over.
    type Input;

    /// Writes the data of a successful action.
    fn ok(data: Self::Input, writer: Writer) -> Result<(), ErrorCode>;

    /// Writes an error.
    fn err(error: &ErrorCode, writer: Writer) -> Result<(), ErrorCode>;

    /// Runs the action once and writes its outcome once. The data of a
    /// successful action is written with `ok`, and what `ok` returns is the
    /// result. An error is written with `err`, and what `err` returns is the
    /// result; but where the action failed because the session was aborted,
    /// the error is written and then returned itself, whatever writing came to.
    fn on_action<F: Fn() -> Result<Self::Input, ErrorCode>>(writer: Writer, fun: F) -> (r: Result<
        (),
        ErrorCode,
    >)
        requires
            fun.requires(()),
        ensures
            exists|outcome: Result<Self::Input, ErrorCode>|
                #![trigger fun.ensures((), outcome)]
                fun.ensures((), outcome) && match reply_for(outcome) {
                    Reply::Data(data) => call_ensures(Self::ok, (data, writer), r),
                    Reply::Error(error) => call_ensures(Self::err, (&error, writer), r),
                    Reply::ErrorThenAbort(error) => r == Err::<(), ErrorCode>(error) && exists|
                        written: Result<(), ErrorCode>,
                    | call_ensures(Self::err, (&error, writer), written),
                },
    {
        let outcome = fun();
        let ghost seen = outcome;
        match classify_outcome(outcome) {
            Reply::Data(data) => {
                let r = Self::ok(data, writer);
                assert(fun.ensures((), seen));
                r
            },
            Reply::Error(error) => {
                let r = Self::err(&error, writer);
                assert(fun.ensures((), seen));
                r
            },
            Reply::ErrorThenAbort(error) => {
                let _ = Self::err(&error, writer);
                assert(fun.ensures((), seen));
                Err(error)
            },
        }
    }
}

} // verus!

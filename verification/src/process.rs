//! What passes between the log and a process: the captured result of an external command,
//! and what a process that relays an item writes and exits with.

use vstd::prelude::*;
use vstd::utf8::{decode_utf8, valid_utf8};
use crate::error::Error;
use crate::item::{copy_text, text, Item, ItemView};

verus! {

/// What an external command left behind once it was awaited.
#[derive(Debug, PartialEq, Eq)]
pub struct Output {
    /// Everything the command wrote to its standard output.
    pub stdout: Vec<u8>,
    /// Everything the command wrote to its standard error.
    pub stderr: Vec<u8>,
    /// The exit code; `None` where the command ended without one.
    pub code: Option<i32>,
}

/// What a process writes and how it ends when it relays a stored item.
#[derive(Debug, PartialEq, Eq)]
pub struct Relay {
    /// Written to the primary output; nothing is written where it is `None`.
    pub stdout: Option<String>,
    /// Written to the error output; nothing is written where it is `None`.
    pub stderr: Option<String>,
    /// The exit code of the process.
    pub code: i32,
}

/// The mathematical value of a [`Relay`].
pub struct RelayView {
    pub stdout: Option<Seq<char>>,
    pub stderr: Option<Seq<char>>,
    pub code: int,
}

impl View for Relay {
    type V = RelayView;

    open spec fn view(&self) -> RelayView {
        RelayView { stdout: text(self.stdout), stderr: text(self.stderr), code: self.code as int }
    }
}

/// The relay of an item: its payload to the primary output, its secondary data to the
/// error output, its status as the exit code.
pub open spec fn relay_of(item: ItemView) -> RelayView {
    RelayView { stdout: item.payload, stderr: item.secondary, code: item.status }
}

/// What a process does to pass `item` on as if it were the live result of the command
/// that produced it.
pub fn relay(item: &Item) -> (r: Relay)
    ensures
        r@ == relay_of(item@),
{
    Relay {
        stdout: copy_text(&item.payload),
        stderr: copy_text(&item.secondary),
        code: item.status,
    }
}

/// `String::from_utf8` of std: the text that `bytes` encode. The bytes are text exactly
/// if they are valid UTF-8, and the text is then their decoding.
#[verifier::external_body]
fn utf8_text(bytes: Vec<u8>) -> (r: Option<String>)
    ensures
        r is Some <==> valid_utf8(bytes@),
        r matches Some(s) ==> s@ == decode_utf8(bytes@),
{
    String::from_utf8(bytes).ok()
}

/// The captured result of a command as the log stores it.
pub struct Captured {
    pub payload: String,
    pub secondary: String,
    pub status: i32,
}

/// What the log stores of `output`, or why it cannot: captured data that is not text is
/// an encoding failure, and a command that ended without an exit code a subprocess
/// failure. The encoding is looked at first.
pub open spec fn captured_of(stdout: Seq<u8>, stderr: Seq<u8>, code: Option<i32>) -> Result<
    (Seq<char>, Seq<char>, int),
    Error,
> {
    if !valid_utf8(stdout) || !valid_utf8(stderr) {
        Err(Error::Encoding)
    } else if code is None {
        Err(Error::Subprocess)
    } else {
        Ok((decode_utf8(stdout), decode_utf8(stderr), code->0 as int))
    }
}

impl Output {
    /// The text and the status that the log stores of this result.
    pub fn capture(self) -> (r: Result<Captured, Error>)
        ensures
            match r {
                Ok(c) => captured_of(self.stdout@, self.stderr@, self.code) == Ok::<_, Error>(
                    (c.payload@, c.secondary@, c.status as int),
                ),
                Err(e) => captured_of(self.stdout@, self.stderr@, self.code) == Err::<
                    (Seq<char>, Seq<char>, int),
                    _,
                >(e),
            },
    {
        let payload = match utf8_text(self.stdout) {
            Some(s) => s,
            None => {
                return Err(Error::Encoding);
            },
        };
        let secondary = match utf8_text(self.stderr) {
            Some(s) => s,
            None => {
                return Err(Error::Encoding);
            },
        };
        match self.code {
            Some(status) => Ok(Captured { payload, secondary, status }),
            None => Err(Error::Subprocess),
        }
    }
}

} // verus!

//! Ping protocol: `PING\r\n` answers `PONG\r\n`, `PING <msg>\r\n` echoes the
//! message after `PONG `, `QUIT\r\n` closes, anything else is an error.

use vstd::prelude::*;
use crate::wire::{eq_nocase, eq_nocase_bytes, find_crlf, spec_find_crlf};

verus! {

/// Parsed ping command.
#[derive(Debug, Clone, PartialEq, Eq)]
pub enum Command {
    /// Simple ping (no message).
    Ping,
    /// Ping with a message to echo back.
    PingMsg(Vec<u8>),
    /// Quit command.
    Quit,
}

/// Parse result.
#[derive(Debug)]
pub enum ParseResult {
    /// Successfully parsed command with bytes consumed.
    Complete(Command, usize),
    /// Need more data.
    Incomplete,
    /// Protocol error (unknown command).
    Error,
}

/// The keyword `PING`.
pub open spec fn kw_ping() -> Seq<u8> {
    seq![80u8, 73u8, 78u8, 71u8]
}

/// The keyword `QUIT`.
pub open spec fn kw_quit() -> Seq<u8> {
    seq![81u8, 85u8, 73u8, 84u8]
}

/// The prefix `PING ` of a ping carrying a message.
pub open spec fn kw_ping_sp() -> Seq<u8> {
    seq![80u8, 73u8, 78u8, 71u8, 32u8]
}

/// The response line `PONG`, terminator included.
pub open spec fn pong_line() -> Seq<u8> {
    seq![80u8, 79u8, 78u8, 71u8, 13u8, 10u8]
}

/// The prefix `PONG ` of a response carrying a message.
pub open spec fn pong_sp() -> Seq<u8> {
    seq![80u8, 79u8, 78u8, 71u8, 32u8]
}

/// The error line for an unknown command, terminator included.
pub open spec fn error_line() -> Seq<u8> {
    seq![
        69u8, 82u8, 82u8, 79u8, 82u8, 32u8, 117u8, 110u8, 107u8, 110u8, 111u8, 119u8,
        110u8, 32u8, 99u8, 111u8, 109u8, 109u8, 97u8, 110u8, 100u8, 13u8, 10u8,
    ]
}

/// Parse one ping-protocol command off the front of `input`.
pub fn parse(input: &[u8]) -> (r: ParseResult)
    ensures
        ({
            let e = spec_find_crlf(input@);
            let line = input@.take(e);
            match r {
                ParseResult::Incomplete => e == -1,
                ParseResult::Complete(cmd, consumed) => {
                    &&& e >= 0
                    &&& consumed == e + 2
                    &&& match cmd {
                        Command::Ping => eq_nocase(line, kw_ping()),
                        Command::Quit => {
                            &&& !eq_nocase(line, kw_ping())
                            &&& eq_nocase(line, kw_quit())
                        },
                        Command::PingMsg(m) => {
                            &&& !eq_nocase(line, kw_ping())
                            &&& !eq_nocase(line, kw_quit())
                            &&& line.len() > 5
                            &&& eq_nocase(line.take(5), kw_ping_sp())
                            &&& m@ == line.skip(5)
                        },
                    }
                },
                ParseResult::Error => {
                    &&& e >= 0
                    &&& !eq_nocase(line, kw_ping())
                    &&& !eq_nocase(line, kw_quit())
                    &&& !(line.len() > 5 && eq_nocase(line.take(5), kw_ping_sp()))
                },
            }
        }),
{
    let line_end = match find_crlf(input) {
        Some(pos) => pos,
        None => {
            return ParseResult::Incomplete;
        }
    };
    let n = input.len();
    let line = &input[0..line_end];
    let consumed = line_end + 2;
    let ping_kw = [80u8, 73u8, 78u8, 71u8];
    let quit_kw = [81u8, 85u8, 73u8, 84u8];
    let ping_sp_kw = [80u8, 73u8, 78u8, 71u8, 32u8];
    proof {
        assert(ping_kw@ =~= kw_ping());
        assert(quit_kw@ =~= kw_quit());
        assert(ping_sp_kw@ =~= kw_ping_sp());
        assert(line@ =~= input@.take(line_end as int));
    }
    if eq_nocase_bytes(line, ping_kw.as_slice()) {
        ParseResult::Complete(Command::Ping, consumed)
    } else if eq_nocase_bytes(line, quit_kw.as_slice()) {
        ParseResult::Complete(Command::Quit, consumed)
    } else if line.len() > 5 && eq_nocase_bytes(&line[0..5], ping_sp_kw.as_slice()) {
        let msg = vstd::slice::slice_to_vec(&line[5..line.len()]);
        proof {
            assert(msg@ =~= input@.take(line_end as int).skip(5));
        }
        ParseResult::Complete(Command::PingMsg(msg), consumed)
    } else {
        ParseResult::Error
    }
}

/// The `PONG` response line.
pub fn response_pong() -> (r: Vec<u8>)
    ensures
        r@ == pong_line(),
{
    let bytes = [80u8, 79u8, 78u8, 71u8, 13u8, 10u8];
    let out = vstd::slice::slice_to_vec(bytes.as_slice());
    proof {
        assert(out@ =~= pong_line());
    }
    out
}

/// Write a `PONG <msg>` response line into `output`; 0 when it does not fit.
pub fn response_pong_msg(msg: &[u8], output: &mut [u8]) -> (r: usize)
    requires
        msg@.len() + 7 <= usize::MAX,
    ensures
        final(output)@.len() == old(output)@.len(),
        ({
            let full = pong_sp() + msg@ + seq![13u8, 10u8];
            if full.len() <= old(output)@.len() {
                &&& r == full.len()
                &&& final(output)@ == full + old(output)@.skip(full.len() as int)
            } else {
                &&& r == 0
                &&& final(output)@ == old(output)@
            }
        }),
{
    let needed = 5 + msg.len() + 2;
    if output.len() < needed {
        return 0;
    }
    let head = [80u8, 79u8, 78u8, 71u8, 32u8];
    let mut full: Vec<u8> = vstd::slice::slice_to_vec(head.as_slice());
    full.extend_from_slice(msg);
    full.push(13u8);
    full.push(10u8);
    proof {
        assert(full@ =~= pong_sp() + msg@ + seq![13u8, 10u8]);
    }
    let n = crate::wire::copy_response(full.as_slice(), output);
    proof {
        assert(final(output)@ =~= full@ + old(output)@.skip(n as int));
    }
    n
}

/// The error line for an unknown command.
pub fn response_error() -> (r: Vec<u8>)
    ensures
        r@ == error_line(),
{
    let bytes = [
        69u8, 82u8, 82u8, 79u8, 82u8, 32u8, 117u8, 110u8, 107u8, 110u8, 111u8, 119u8,
        110u8, 32u8, 99u8, 111u8, 109u8, 109u8, 97u8, 110u8, 100u8, 13u8, 10u8,
    ];
    let out = vstd::slice::slice_to_vec(bytes.as_slice());
    proof {
        assert(out@ =~= error_line());
    }
    out
}

} // verus!

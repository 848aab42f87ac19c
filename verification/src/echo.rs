//! Echo protocol: a decimal length line, then that many bytes, echoed back
//! with the same framing. `QUIT\r\n` closes the connection.

use vstd::prelude::*;
use crate::num::{dec_digits, format_u64, spec_parse_u64, parse_u64};
use crate::wire::{eq_nocase, eq_nocase_bytes, find_crlf, spec_find_crlf};

verus! {

/// Parsed echo command.
#[derive(Debug, Clone, PartialEq, Eq)]
pub enum Command {
    /// Echo data back (header consumed, data follows).
    Echo {
        /// Length of the data to echo.
        length: usize,
        /// Bytes consumed by the header (length line plus terminator).
        header_len: usize,
    },
    /// Quit command.
    Quit,
}

/// Parse result.
#[derive(Debug)]
pub enum ParseResult {
    /// Successfully parsed command.
    Complete(Command),
    /// Need more data for the header.
    Incomplete,
    /// Invalid length format.
    InvalidLength,
}

/// The keyword `QUIT`.
pub open spec fn kw_quit() -> Seq<u8> {
    seq![81u8, 85u8, 73u8, 84u8]
}

/// Parse an echo-protocol header off the front of `input`.
pub fn parse(input: &[u8]) -> (r: ParseResult)
    ensures
        ({
            let e = spec_find_crlf(input@);
            let line = input@.take(e);
            match r {
                ParseResult::Incomplete => e == -1,
                ParseResult::Complete(cmd) => {
                    &&& e >= 0
                    &&& match cmd {
                        Command::Quit => eq_nocase(line, kw_quit()),
                        Command::Echo { length, header_len } => {
                            &&& !eq_nocase(line, kw_quit())
                            &&& spec_parse_u64(line) == Some(length as u64)
                            &&& header_len == e + 2
                        },
                    }
                },
                ParseResult::InvalidLength => {
                    &&& e >= 0
                    &&& !eq_nocase(line, kw_quit())
                    &&& match spec_parse_u64(line) {
                        Some(v) => v > usize::MAX as u64,
                        None => true,
                    }
                },
            }
        }),
{
    let line_end = match find_crlf(input) {
        Some(pos) => pos,
        None => {
            return ParseResult::Incomplete;
        }
    };
    let n = input.len();
    let line = &input[0..line_end];
    proof {
        assert(line@ =~= input@.take(line_end as int));
    }
    let quit_kw = [81u8, 85u8, 73u8, 84u8];
    proof {
        assert(quit_kw@ =~= kw_quit());
    }
    if eq_nocase_bytes(line, quit_kw.as_slice()) {
        return ParseResult::Complete(Command::Quit);
    }
    match parse_u64(line) {
        Some(v) => {
            if v > usize::MAX as u64 {
                ParseResult::InvalidLength
            } else {
                ParseResult::Complete(Command::Echo {
                    length: v as usize,
                    header_len: line_end + 2,
                })
            }
        }
        None => ParseResult::InvalidLength,
    }
}

/// Write an echo response header (`<length>\r\n`) into `output`; 0 when it
/// does not fit.
pub fn response_header(length: usize, output: &mut [u8]) -> (r: usize)
    ensures
        final(output)@.len() == old(output)@.len(),
        ({
            let hdr = dec_digits(length as nat) + seq![13u8, 10u8];
            if hdr.len() <= old(output)@.len() {
                &&& r == hdr.len()
                &&& final(output)@ == hdr + old(output)@.skip(hdr.len() as int)
            } else {
                &&& r == 0
                &&& final(output)@ == old(output)@
            }
        }),
{
    let mut hdr = format_u64(length as u64);
    hdr.push(13u8);
    hdr.push(10u8);
    proof {
        assert(hdr@ =~= dec_digits(length as nat) + seq![13u8, 10u8]);
    }
    if output.len() < hdr.len() {
        return 0;
    }
    let n = crate::wire::copy_response(hdr.as_slice(), output);
    proof {
        assert(final(output)@ =~= hdr@ + old(output)@.skip(n as int));
    }
    n
}

/// The `ERROR ` prefix of an error line.
pub open spec fn error_prefix() -> Seq<u8> {
    seq![69u8, 82u8, 82u8, 79u8, 82u8, 32u8]
}

/// An error line: `ERROR <msg>`, terminator included.
pub fn response_error(msg: &[u8]) -> (r: Vec<u8>)
    ensures
        r@ == error_prefix() + msg@ + seq![13u8, 10u8],
{
    let head = [69u8, 82u8, 82u8, 79u8, 82u8, 32u8];
    let mut out: Vec<u8> = vstd::slice::slice_to_vec(head.as_slice());
    out.extend_from_slice(msg);
    out.push(13u8);
    out.push(10u8);
    proof {
        assert(out@ =~= error_prefix() + msg@ + seq![13u8, 10u8]);
    }
    out
}

} // verus!

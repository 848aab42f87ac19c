//! Memcached text protocol: the command parser and the response formatter.
//!
//! Commands are single ASCII lines ended by CRLF; storage commands are
//! followed by a data block of a declared size and a trailing CRLF. Keys are
//! at most 250 bytes.

use vstd::prelude::*;
use crate::num::{dec_digits, format_u64, spec_parse_u64, parse_u64};
use crate::wire::{
    eq_nocase, eq_nocase_bytes, find_crlf, spec_find_crlf, lower,
};

verus! {

/// Maximum key length allowed by the protocol.
pub const MAX_KEY_LENGTH: usize = 250;

/// A parsed command.
#[derive(Debug, PartialEq, Eq)]
pub enum Command {
    /// Get one or more keys.
    Get { keys: Vec<Vec<u8>> },
    /// Get one or more keys with CAS tokens.
    Gets { keys: Vec<Vec<u8>> },
    /// Store a value.
    SetCmd { key: Vec<u8>, flags: u32, exptime: u64, bytes: usize, noreply: bool },
    /// Store a value only if the key is absent.
    Add { key: Vec<u8>, flags: u32, exptime: u64, bytes: usize, noreply: bool },
    /// Store a value only if the key is present.
    Replace { key: Vec<u8>, flags: u32, exptime: u64, bytes: usize, noreply: bool },
    /// Append data to an existing value.
    Append { key: Vec<u8>, flags: u32, exptime: u64, bytes: usize, noreply: bool },
    /// Prepend data to an existing value.
    Prepend { key: Vec<u8>, flags: u32, exptime: u64, bytes: usize, noreply: bool },
    /// Store only if the CAS token matches.
    Cas { key: Vec<u8>, flags: u32, exptime: u64, bytes: usize, cas_unique: u64, noreply: bool },
    /// Delete a key.
    Delete { key: Vec<u8>, noreply: bool },
    /// Increment a numeric value.
    Incr { key: Vec<u8>, value: u64, noreply: bool },
    /// Decrement a numeric value.
    Decr { key: Vec<u8>, value: u64, noreply: bool },
    /// Flush all items, optionally after a delay.
    FlushAll { delay: u64, noreply: bool },
    /// Server statistics.
    Stats,
    /// Server version.
    Version,
    /// Close the connection.
    Quit,
}

/// Protocol parsing errors.
#[derive(Debug, PartialEq, Eq)]
pub enum ParseError {
    /// Need more data to complete parsing.
    Incomplete,
    /// Invalid command format.
    InvalidCommand,
    /// The key is too long; carries the offending key.
    KeyTooLong(Vec<u8>),
    /// Invalid number format.
    InvalidNumber,
    /// Unknown command; carries the lower-cased command name.
    UnknownCommand(Vec<u8>),
}

/// Result of parsing a command.
#[derive(Debug)]
pub enum ParseResult {
    /// A complete command and the bytes it consumed.
    Complete(Command, usize),
    /// A storage command that needs its data block.
    NeedData {
        /// Bytes of the command line, terminator included.
        command_bytes: usize,
        /// Declared size of the data block.
        data_bytes: usize,
    },
    /// Parse error.
    Error(ParseError),
}

/// Whitespace that separates tokens on a command line.
pub open spec fn is_ws(b: u8) -> bool {
    b == 32 || b == 9
}

/// Position of the first whitespace byte, or the length when there is none.
pub open spec fn first_ws(s: Seq<u8>) -> int
    decreases s.len(),
{
    if s.len() == 0 {
        0
    } else if is_ws(s[0]) {
        0
    } else {
        1 + first_ws(s.drop_first())
    }
}

/// `first_ws` names the first whitespace position.
pub proof fn lemma_first_ws(s: Seq<u8>)
    ensures
        0 <= first_ws(s) <= s.len(),
        forall|j: int| 0 <= j < first_ws(s) ==> !is_ws(#[trigger] s[j]),
        first_ws(s) < s.len() ==> is_ws(s[first_ws(s)]),
    decreases s.len(),
{
    if s.len() > 0 && !is_ws(s[0]) {
        lemma_first_ws(s.drop_first());
        assert(forall|j: int| 0 <= j < s.len() - 1 ==> s.drop_first()[j] == s[j + 1]);
        assert forall|j: int| 0 <= j < first_ws(s) implies !is_ws(#[trigger] s[j]) by {
            if j > 0 {
                assert(s[j] == s.drop_first()[j - 1]);
                assert(!is_ws(s.drop_first()[j - 1]));
            }
        }
        if first_ws(s) < s.len() {
            assert(s[first_ws(s)] == s.drop_first()[first_ws(s.drop_first())]);
        }
    }
}

/// The tokens of a command line: maximal runs of non-whitespace bytes.
pub open spec fn spec_tokens(s: Seq<u8>) -> Seq<Seq<u8>>
    decreases s.len(),
    via spec_tokens_decreases
{
    if s.len() == 0 {
        Seq::empty()
    } else if is_ws(s[0]) {
        spec_tokens(s.drop_first())
    } else {
        seq![s.take(first_ws(s))] + spec_tokens(s.skip(first_ws(s)))
    }
}

#[via_fn]
proof fn spec_tokens_decreases(s: Seq<u8>) {
    lemma_first_ws(s);
}

/// The keyword `get`.
pub open spec fn kw_get() -> Seq<u8> {
    seq![103u8, 101u8, 116u8]
}

/// The keyword `gets`.
pub open spec fn kw_gets() -> Seq<u8> {
    seq![103u8, 101u8, 116u8, 115u8]
}

/// The keyword `set`.
pub open spec fn kw_set() -> Seq<u8> {
    seq![115u8, 101u8, 116u8]
}

/// The keyword `add`.
pub open spec fn kw_add() -> Seq<u8> {
    seq![97u8, 100u8, 100u8]
}

/// The keyword `replace`.
pub open spec fn kw_replace() -> Seq<u8> {
    seq![114u8, 101u8, 112u8, 108u8, 97u8, 99u8, 101u8]
}

/// The keyword `append`.
pub open spec fn kw_append() -> Seq<u8> {
    seq![97u8, 112u8, 112u8, 101u8, 110u8, 100u8]
}

/// The keyword `prepend`.
pub open spec fn kw_prepend() -> Seq<u8> {
    seq![112u8, 114u8, 101u8, 112u8, 101u8, 110u8, 100u8]
}

/// The keyword `cas`.
pub open spec fn kw_cas() -> Seq<u8> {
    seq![99u8, 97u8, 115u8]
}

/// The keyword `delete`.
pub open spec fn kw_delete() -> Seq<u8> {
    seq![100u8, 101u8, 108u8, 101u8, 116u8, 101u8]
}

/// The keyword `incr`.
pub open spec fn kw_incr() -> Seq<u8> {
    seq![105u8, 110u8, 99u8, 114u8]
}

/// The keyword `decr`.
pub open spec fn kw_decr() -> Seq<u8> {
    seq![100u8, 101u8, 99u8, 114u8]
}

/// The keyword `flush_all`.
pub open spec fn kw_flush_all() -> Seq<u8> {
    seq![102u8, 108u8, 117u8, 115u8, 104u8, 95u8, 97u8, 108u8, 108u8]
}

/// The keyword `stats`.
pub open spec fn kw_stats() -> Seq<u8> {
    seq![115u8, 116u8, 97u8, 116u8, 115u8]
}

/// The keyword `version`.
pub open spec fn kw_version() -> Seq<u8> {
    seq![118u8, 101u8, 114u8, 115u8, 105u8, 111u8, 110u8]
}

/// The keyword `quit`.
pub open spec fn kw_quit() -> Seq<u8> {
    seq![113u8, 117u8, 105u8, 116u8]
}

/// The keyword `noreply`.
pub open spec fn kw_noreply() -> Seq<u8> {
    seq![110u8, 111u8, 114u8, 101u8, 112u8, 108u8, 121u8]
}

/// The response line of `end`.
pub open spec fn end_line() -> Seq<u8> {
    seq![69u8, 78u8, 68u8, 13u8, 10u8]
}

/// The response line of `stored`.
pub open spec fn stored_line() -> Seq<u8> {
    seq![83u8, 84u8, 79u8, 82u8, 69u8, 68u8, 13u8, 10u8]
}

/// The response line of `not_stored`.
pub open spec fn not_stored_line() -> Seq<u8> {
    seq![78u8, 79u8, 84u8, 95u8, 83u8, 84u8, 79u8, 82u8, 69u8, 68u8, 13u8, 10u8]
}

/// The response line of `exists`.
pub open spec fn exists_line() -> Seq<u8> {
    seq![69u8, 88u8, 73u8, 83u8, 84u8, 83u8, 13u8, 10u8]
}

/// The response line of `not_found`.
pub open spec fn not_found_line() -> Seq<u8> {
    seq![78u8, 79u8, 84u8, 95u8, 70u8, 79u8, 85u8, 78u8, 68u8, 13u8, 10u8]
}

/// The response line of `deleted`.
pub open spec fn deleted_line() -> Seq<u8> {
    seq![68u8, 69u8, 76u8, 69u8, 84u8, 69u8, 68u8, 13u8, 10u8]
}

/// The response line of `ok`.
pub open spec fn ok_line() -> Seq<u8> {
    seq![79u8, 75u8, 13u8, 10u8]
}

/// The response line of `error`.
pub open spec fn error_line() -> Seq<u8> {
    seq![69u8, 82u8, 82u8, 79u8, 82u8, 13u8, 10u8]
}

/// The response line of `version`.
pub open spec fn version_line() -> Seq<u8> {
    seq![86u8, 69u8, 82u8, 83u8, 73u8, 79u8, 78u8, 32u8, 103u8, 114u8, 111u8, 119u8, 45u8, 97u8, 45u8, 99u8, 97u8, 99u8, 104u8, 101u8, 32u8, 48u8, 46u8, 49u8, 46u8, 48u8, 13u8, 10u8]
}


/// A line has no more tokens than bytes.
pub proof fn lemma_tokens_len(s: Seq<u8>)
    ensures
        spec_tokens(s).len() <= s.len(),
    decreases s.len(),
{
    if s.len() == 0 {
    } else if is_ws(s[0]) {
        lemma_tokens_len(s.drop_first());
    } else {
        lemma_first_ws(s);
        lemma_tokens_len(s.skip(first_ws(s)));
    }
}

/// The lower-cased bytes of `s`.
pub open spec fn lower_seq(s: Seq<u8>) -> Seq<u8> {
    s.map_values(|b: u8| lower(b))
}

/// Split a command line into whitespace-separated tokens.
pub fn tokenize(line: &[u8]) -> (r: Vec<Vec<u8>>)
    ensures
        r.deep_view() == spec_tokens(line@),
{
    let n = line.len();
    let mut toks: Vec<Vec<u8>> = Vec::new();
    let mut i: usize = 0;
    proof {
        assert(line@.skip(0) =~= line@);
    }
    while i < n
        invariant
            n == line@.len(),
            i <= n,
            spec_tokens(line@) == toks.deep_view() + spec_tokens(line@.skip(i as int)),
        decreases n - i,
    {
        if line[i] == 32 || line[i] == 9 {
            i = i + 1;
            proof {
                assert(line@.skip(i - 1).drop_first() =~= line@.skip(i as int));
            }
        } else {
            let start = i;
            let mut j = i + 1;
            while j < n && line[j] != 32 && line[j] != 9
                invariant
                    n == line@.len(),
                    i < n,
                    i < j <= n,
                    forall|t: int| i <= t < j ==> !is_ws(#[trigger] line@[t]),
                decreases n - j,
            {
                j = j + 1;
            }
            let tok = vstd::slice::slice_to_vec(&line[start..j]);
            let ghost pre = toks.deep_view();
            toks.push(tok);
            proof {
                let suffix = line@.skip(i as int);
                assert(forall|t: int| 0 <= t < suffix.len() ==> suffix[t] == line@[t + i]);
                lemma_first_ws(suffix);
                assert forall|t: int| 0 <= t < j - i implies !is_ws(#[trigger] suffix[t]) by {
                    assert(suffix[t] == line@[t + i]);
                }
                assert(first_ws(suffix) == j - i) by {
                    if j < n {
                        assert(is_ws(suffix[j - i]));
                        if first_ws(suffix) < j - i {
                            assert(!is_ws(suffix[first_ws(suffix)]));
                            assert(is_ws(suffix[first_ws(suffix)]));
                        }
                        if first_ws(suffix) > j - i {
                            assert(!is_ws(suffix[j - i]));
                        }
                    } else {
                        if first_ws(suffix) < j - i {
                            assert(is_ws(suffix[first_ws(suffix)]));
                        }
                    }
                }
                assert(suffix.take(j - i) =~= line@.subrange(start as int, j as int));
                assert(suffix.skip(j - i) =~= line@.skip(j as int));
                assert(toks.deep_view() =~~= pre + seq![line@.subrange(start as int, j as int)]);
                assert((pre + seq![line@.subrange(start as int, j as int)])
                    + spec_tokens(line@.skip(j as int))
                    =~= pre + (seq![line@.subrange(start as int, j as int)]
                        + spec_tokens(line@.skip(j as int))));
            }
            i = j;
        }
    }
    proof {
        assert(line@.skip(n as int) =~= Seq::<u8>::empty());
        assert(toks.deep_view() + Seq::<Seq<u8>>::empty() =~= toks.deep_view());
    }
    toks
}

/// Parse of an unsigned 32-bit decimal.
pub open spec fn spec_parse_u32(s: Seq<u8>) -> Option<u32> {
    match spec_parse_u64(s) {
        Some(v) => if v <= u32::MAX { Some(v as u32) } else { None },
        None => None,
    }
}

/// Parse of a decimal that must fit an object size.
pub open spec fn spec_parse_usize(s: Seq<u8>) -> Option<usize> {
    match spec_parse_u64(s) {
        Some(v) => if v <= usize::MAX { Some(v as usize) } else { None },
        None => None,
    }
}

/// Parse an unsigned 32-bit decimal.
pub fn parse_u32(s: &[u8]) -> (r: Option<u32>)
    ensures
        r == spec_parse_u32(s@),
{
    match parse_u64(s) {
        Some(v) => if v <= u32::MAX as u64 { Some(v as u32) } else { None },
        None => None,
    }
}

/// Parse a decimal that must fit an object size.
pub fn parse_usize(s: &[u8]) -> (r: Option<usize>)
    ensures
        r == spec_parse_usize(s@),
{
    match parse_u64(s) {
        Some(v) => if v <= usize::MAX as u64 { Some(v as usize) } else { None },
        None => None,
    }
}

/// Lower-case a byte string.
pub fn lower_bytes(s: &[u8]) -> (r: Vec<u8>)
    ensures
        r@ == lower_seq(s@),
{
    let n = s.len();
    let mut out: Vec<u8> = Vec::with_capacity(n);
    for i in 0..n
        invariant
            n == s@.len(),
            out@.len() == i,
            forall|j: int| 0 <= j < i ==> out@[j] == lower(s@[j]),
    {
        let b = s[i];
        out.push(if 65 <= b && b <= 90 { b + 32 } else { b });
    }
    proof {
        assert(out@ =~= lower_seq(s@));
    }
    out
}

/// Case-insensitive equality against an already-lower-case keyword.
fn is_kw(tok: &Vec<u8>, kw: &[u8]) -> (r: bool)
    requires
        forall|i: int| 0 <= i < kw@.len() ==> lower(#[trigger] kw@[i]) == kw@[i],
    ensures
        r <==> lower_seq(tok@) == kw@,
{
    let r = eq_nocase_bytes(tok.as_slice(), kw);
    proof {
        if eq_nocase(tok@, kw@) {
            assert(lower_seq(tok@) =~= kw@);
        } else if lower_seq(tok@) == kw@ {
            assert forall|i: int| 0 <= i < tok@.len() implies
                lower(tok@[i]) == lower(kw@[i]) by {
                assert(lower_seq(tok@)[i] == lower(tok@[i]));
            }
            assert(eq_nocase(tok@, kw@));
        }
    }
    r
}

/// Whether `tok` is the `noreply` suffix.
fn is_noreply(tok: &Vec<u8>) -> (r: bool)
    ensures
        r <==> eq_nocase(tok@, kw_noreply()),
{
    let kw = KW_NOREPLY_B;
    eq_nocase_bytes(tok.as_slice(), kw.as_slice())
}

/// Meaning of a parsed `get`/`gets`: every key at most 250 bytes, and the
/// keys are the remaining tokens.
pub open spec fn get_post(toks: Seq<Seq<u8>>, with_cas: bool, consumed: int, r: ParseResult) -> bool {
    if toks.len() < 2 {
        r == ParseResult::Error(ParseError::InvalidCommand)
    } else if exists|i: int| 1 <= i < toks.len() && (#[trigger] toks[i]).len() > MAX_KEY_LENGTH {
        match r {
            ParseResult::Error(ParseError::KeyTooLong(k)) => exists|i: int|
                {
                    &&& 1 <= i < toks.len()
                    &&& k@ == (#[trigger] toks[i])
                    &&& toks[i].len() > MAX_KEY_LENGTH
                    &&& forall|j: int| 1 <= j < i ==> (#[trigger] toks[j]).len() <= MAX_KEY_LENGTH
                },
            _ => false,
        }
    } else {
        match r {
            ParseResult::Complete(cmd, c) => {
                &&& c == consumed
                &&& match cmd {
                    Command::Get { keys } => !with_cas && keys.deep_view() == toks.skip(1),
                    Command::Gets { keys } => with_cas && keys.deep_view() == toks.skip(1),
                    _ => false,
                }
            },
            _ => false,
        }
    }
}

/// Meaning of a parsed storage header (`set`/`add`/`replace`/`append`/
/// `prepend`): a valid key, flags, exptime and byte count give `NeedData`.
pub open spec fn storage_post(toks: Seq<Seq<u8>>, consumed: int, r: ParseResult) -> bool {
    if toks.len() < 5 {
        r == ParseResult::Error(ParseError::InvalidCommand)
    } else if toks[1].len() > MAX_KEY_LENGTH {
        match r {
            ParseResult::Error(ParseError::KeyTooLong(k)) => k@ == toks[1],
            _ => false,
        }
    } else if spec_parse_u32(toks[2]) is None {
        r == ParseResult::Error(ParseError::InvalidNumber)
    } else if spec_parse_u64(toks[3]) is None {
        r == ParseResult::Error(ParseError::InvalidNumber)
    } else {
        match spec_parse_usize(toks[4]) {
            None => r == ParseResult::Error(ParseError::InvalidNumber),
            Some(b) => r == (ParseResult::NeedData {
                command_bytes: consumed as usize,
                data_bytes: b,
            }),
        }
    }
}

/// Meaning of a parsed `cas` header: a valid key and byte count give
/// `NeedData`; the other fields are read with the data block.
pub open spec fn cas_header_post(toks: Seq<Seq<u8>>, consumed: int, r: ParseResult) -> bool {
    if toks.len() < 6 {
        r == ParseResult::Error(ParseError::InvalidCommand)
    } else if toks[1].len() > MAX_KEY_LENGTH {
        match r {
            ParseResult::Error(ParseError::KeyTooLong(k)) => k@ == toks[1],
            _ => false,
        }
    } else {
        match spec_parse_usize(toks[4]) {
            None => r == ParseResult::Error(ParseError::InvalidNumber),
            Some(b) => r == (ParseResult::NeedData {
                command_bytes: consumed as usize,
                data_bytes: b,
            }),
        }
    }
}

/// Meaning of a parsed `delete`.
pub open spec fn delete_post(toks: Seq<Seq<u8>>, consumed: int, r: ParseResult) -> bool {
    if toks.len() < 2 {
        r == ParseResult::Error(ParseError::InvalidCommand)
    } else if toks[1].len() > MAX_KEY_LENGTH {
        match r {
            ParseResult::Error(ParseError::KeyTooLong(k)) => k@ == toks[1],
            _ => false,
        }
    } else {
        match r {
            ParseResult::Complete(cmd, c) => {
                &&& c == consumed
                &&& match cmd {
                    Command::Delete { key, noreply } => {
                        &&& key@ == toks[1]
                        &&& noreply == (toks.len() > 2 && eq_nocase(toks[2], kw_noreply()))
                    },
                    _ => false,
                }
            },
            _ => false,
        }
    }
}

/// Meaning of a parsed `incr` or `decr`.
pub open spec fn incr_post(toks: Seq<Seq<u8>>, is_incr: bool, consumed: int, r: ParseResult) -> bool {
    if toks.len() < 3 {
        r == ParseResult::Error(ParseError::InvalidCommand)
    } else if toks[1].len() > MAX_KEY_LENGTH {
        match r {
            ParseResult::Error(ParseError::KeyTooLong(k)) => k@ == toks[1],
            _ => false,
        }
    } else {
        match spec_parse_u64(toks[2]) {
            None => r == ParseResult::Error(ParseError::InvalidNumber),
            Some(v) => match r {
                ParseResult::Complete(cmd, c) => {
                    &&& c == consumed
                    &&& match cmd {
                        Command::Incr { key, value, noreply } => {
                            &&& is_incr
                            &&& key@ == toks[1]
                            &&& value == v
                            &&& noreply == (toks.len() > 3 && eq_nocase(toks[3], kw_noreply()))
                        },
                        Command::Decr { key, value, noreply } => {
                            &&& !is_incr
                            &&& key@ == toks[1]
                            &&& value == v
                            &&& noreply == (toks.len() > 3 && eq_nocase(toks[3], kw_noreply()))
                        },
                        _ => false,
                    }
                },
                _ => false,
            },
        }
    }
}

/// Meaning of a parsed `flush_all`: an optional delay, an optional
/// `noreply`; an unreadable delay counts as zero.
pub open spec fn flush_post(toks: Seq<Seq<u8>>, consumed: int, r: ParseResult) -> bool {
    let delay: u64 = if toks.len() > 1 && !eq_nocase(toks[1], kw_noreply()) {
        match spec_parse_u64(toks[1]) {
            Some(v) => v,
            None => 0u64,
        }
    } else {
        0u64
    };
    let noreply: bool = if toks.len() > 1 {
        if eq_nocase(toks[1], kw_noreply()) {
            true
        } else {
            toks.len() > 2 && eq_nocase(toks[2], kw_noreply())
        }
    } else {
        false
    };
    match r {
        ParseResult::Complete(cmd, c) => {
            &&& c == consumed
            &&& cmd == (Command::FlushAll { delay, noreply })
        },
        _ => false,
    }
}

/// Exact meaning of `Parser::parse` on `input`.
pub open spec fn parse_post(input: Seq<u8>, r: ParseResult) -> bool {
    let e = spec_find_crlf(input);
    let line = input.take(e);
    let toks = spec_tokens(line);
    let consumed = e + 2;
    if e == -1 {
        r == ParseResult::Error(ParseError::Incomplete)
    } else if toks.len() == 0 {
        r == ParseResult::Error(ParseError::InvalidCommand)
    } else {
        let cmd = lower_seq(toks[0]);
        if cmd == kw_get() {
            get_post(toks, false, consumed, r)
        } else if cmd == kw_gets() {
            get_post(toks, true, consumed, r)
        } else if cmd == kw_set() || cmd == kw_add() || cmd == kw_replace()
            || cmd == kw_append() || cmd == kw_prepend() {
            storage_post(toks, consumed, r)
        } else if cmd == kw_cas() {
            cas_header_post(toks, consumed, r)
        } else if cmd == kw_delete() {
            delete_post(toks, consumed, r)
        } else if cmd == kw_incr() {
            incr_post(toks, true, consumed, r)
        } else if cmd == kw_decr() {
            incr_post(toks, false, consumed, r)
        } else if cmd == kw_flush_all() {
            flush_post(toks, consumed, r)
        } else if cmd == kw_stats() {
            r == ParseResult::Complete(Command::Stats, consumed as usize)
        } else if cmd == kw_version() {
            r == ParseResult::Complete(Command::Version, consumed as usize)
        } else if cmd == kw_quit() {
            r == ParseResult::Complete(Command::Quit, consumed as usize)
        } else {
            match r {
                ParseResult::Error(ParseError::UnknownCommand(c)) => c@ == cmd,
                _ => false,
            }
        }
    }
}


/// Pointwise shape of the deep view of a vector of byte vectors.
proof fn lemma_deep_view_u8s(v: Vec<Vec<u8>>)
    ensures
        v.deep_view().len() == v@.len(),
        forall|k: int| 0 <= k < v@.len() ==> v.deep_view()[k] == v@[k]@,
{
    assert forall|k: int| 0 <= k < v@.len() implies v.deep_view()[k] == v@[k]@ by {
        assert(v@[k].deep_view() =~= v@[k]@);
    }
}

/// Parser for the memcached text protocol.
pub struct Parser;

/// The keyword `get` as bytes.
pub const KW_GET_B: [u8; 3] = [103u8, 101u8, 116u8];

/// The keyword `gets` as bytes.
pub const KW_GETS_B: [u8; 4] = [103u8, 101u8, 116u8, 115u8];

/// The keyword `set` as bytes.
pub const KW_SET_B: [u8; 3] = [115u8, 101u8, 116u8];

/// The keyword `add` as bytes.
pub const KW_ADD_B: [u8; 3] = [97u8, 100u8, 100u8];

/// The keyword `replace` as bytes.
pub const KW_REPLACE_B: [u8; 7] = [114u8, 101u8, 112u8, 108u8, 97u8, 99u8, 101u8];

/// The keyword `append` as bytes.
pub const KW_APPEND_B: [u8; 6] = [97u8, 112u8, 112u8, 101u8, 110u8, 100u8];

/// The keyword `prepend` as bytes.
pub const KW_PREPEND_B: [u8; 7] = [112u8, 114u8, 101u8, 112u8, 101u8, 110u8, 100u8];

/// The keyword `cas` as bytes.
pub const KW_CAS_B: [u8; 3] = [99u8, 97u8, 115u8];

/// The keyword `delete` as bytes.
pub const KW_DELETE_B: [u8; 6] = [100u8, 101u8, 108u8, 101u8, 116u8, 101u8];

/// The keyword `incr` as bytes.
pub const KW_INCR_B: [u8; 4] = [105u8, 110u8, 99u8, 114u8];

/// The keyword `decr` as bytes.
pub const KW_DECR_B: [u8; 4] = [100u8, 101u8, 99u8, 114u8];

/// The keyword `flush_all` as bytes.
pub const KW_FLUSH_ALL_B: [u8; 9] = [102u8, 108u8, 117u8, 115u8, 104u8, 95u8, 97u8, 108u8, 108u8];

/// The keyword `stats` as bytes.
pub const KW_STATS_B: [u8; 5] = [115u8, 116u8, 97u8, 116u8, 115u8];

/// The keyword `version` as bytes.
pub const KW_VERSION_B: [u8; 7] = [118u8, 101u8, 114u8, 115u8, 105u8, 111u8, 110u8];

/// The keyword `quit` as bytes.
pub const KW_QUIT_B: [u8; 4] = [113u8, 117u8, 105u8, 116u8];

/// The keyword `noreply` as bytes.
pub const KW_NOREPLY_B: [u8; 7] = [110u8, 111u8, 114u8, 101u8, 112u8, 108u8, 121u8];


impl Parser {
    /// Parse one command line off the front of `buffer`.
    pub fn parse(buffer: &[u8]) -> (r: ParseResult)
        ensures
            parse_post(buffer@, r),
    {
        let n = buffer.len();
        let line_end = match find_crlf(buffer) {
            Some(pos) => pos,
            None => {
                return ParseResult::Error(ParseError::Incomplete);
            }
        };
        let line = &buffer[0..line_end];
        proof {
            assert(line@ =~= buffer@.take(line_end as int));
        }
        let toks = tokenize(line);
        let ghost tseq = spec_tokens(line@);
        if toks.len() == 0 {
            proof {
                assert(tseq.len() == 0);
            }
            return ParseResult::Error(ParseError::InvalidCommand);
        }
        proof {
            assert(toks@[0]@ == tseq[0]);
        }
        let consumed = line_end + 2;
        let cmd = lower_bytes(toks[0].as_slice());
        if eq_bytes(&cmd, KW_GET_B.as_slice()) {
            Self::parse_get(&toks, false, consumed)
        } else if eq_bytes(&cmd, KW_GETS_B.as_slice()) {
            Self::parse_get(&toks, true, consumed)
        } else if eq_bytes(&cmd, KW_SET_B.as_slice()) || eq_bytes(&cmd, KW_ADD_B.as_slice())
            || eq_bytes(&cmd, KW_REPLACE_B.as_slice()) || eq_bytes(&cmd, KW_APPEND_B.as_slice())
            || eq_bytes(&cmd, KW_PREPEND_B.as_slice()) {
            Self::parse_storage(&toks, consumed)
        } else if eq_bytes(&cmd, KW_CAS_B.as_slice()) {
            Self::parse_cas(&toks, consumed)
        } else if eq_bytes(&cmd, KW_DELETE_B.as_slice()) {
            Self::parse_delete(&toks, consumed)
        } else if eq_bytes(&cmd, KW_INCR_B.as_slice()) {
            Self::parse_incr_decr(&toks, true, consumed)
        } else if eq_bytes(&cmd, KW_DECR_B.as_slice()) {
            Self::parse_incr_decr(&toks, false, consumed)
        } else if eq_bytes(&cmd, KW_FLUSH_ALL_B.as_slice()) {
            Self::parse_flush_all(&toks, consumed)
        } else if eq_bytes(&cmd, KW_STATS_B.as_slice()) {
            ParseResult::Complete(Command::Stats, consumed)
        } else if eq_bytes(&cmd, KW_VERSION_B.as_slice()) {
            ParseResult::Complete(Command::Version, consumed)
        } else if eq_bytes(&cmd, KW_QUIT_B.as_slice()) {
            ParseResult::Complete(Command::Quit, consumed)
        } else {
            ParseResult::Error(ParseError::UnknownCommand(cmd))
        }
    }

    /// Parse a `get`/`gets` command from its tokens.
    fn parse_get(toks: &Vec<Vec<u8>>, with_cas: bool, consumed: usize) -> (r: ParseResult)
        ensures
            get_post(toks.deep_view(), with_cas, consumed as int, r),
    {
        let ghost tseq = toks.deep_view();
        if toks.len() < 2 {
            return ParseResult::Error(ParseError::InvalidCommand);
        }
        let n = toks.len();
        let mut keys: Vec<Vec<u8>> = Vec::new();
        for i in 1..n
            invariant
                n == tseq.len(),
                tseq == toks.deep_view(),
                1 <= i <= n,
                keys@.len() == i - 1,
                forall|k: int| 0 <= k < i - 1 ==> (#[trigger] keys@[k])@ == tseq[k + 1],
                forall|j: int| 1 <= j < i ==> (#[trigger] tseq[j]).len() <= MAX_KEY_LENGTH,
        {
            proof {
                assert(toks@[i as int]@ == tseq[i as int]);
            }
            if toks[i].len() > MAX_KEY_LENGTH {
                return ParseResult::Error(ParseError::KeyTooLong(
                    crate::storage::clone_bytes(&toks[i]),
                ));
            }
            keys.push(crate::storage::clone_bytes(&toks[i]));
        }
        proof {
            lemma_deep_view_u8s(keys);
            assert(keys.deep_view() =~~= tseq.skip(1));
        }
        if with_cas {
            ParseResult::Complete(Command::Gets { keys }, consumed)
        } else {
            ParseResult::Complete(Command::Get { keys }, consumed)
        }
    }

    /// Parse the header of a storage command from its tokens.
    fn parse_storage(toks: &Vec<Vec<u8>>, consumed: usize) -> (r: ParseResult)
        ensures
            storage_post(toks.deep_view(), consumed as int, r),
    {
        let ghost tseq = toks.deep_view();
        if toks.len() < 5 {
            return ParseResult::Error(ParseError::InvalidCommand);
        }
        proof {
            assert(toks@[1]@ == tseq[1]);
            assert(toks@[2]@ == tseq[2]);
            assert(toks@[3]@ == tseq[3]);
            assert(toks@[4]@ == tseq[4]);
        }
        if toks[1].len() > MAX_KEY_LENGTH {
            return ParseResult::Error(ParseError::KeyTooLong(
                crate::storage::clone_bytes(&toks[1]),
            ));
        }
        if parse_u32(toks[2].as_slice()).is_none() {
            return ParseResult::Error(ParseError::InvalidNumber);
        }
        if parse_u64(toks[3].as_slice()).is_none() {
            return ParseResult::Error(ParseError::InvalidNumber);
        }
        match parse_usize(toks[4].as_slice()) {
            None => ParseResult::Error(ParseError::InvalidNumber),
            Some(b) => ParseResult::NeedData { command_bytes: consumed, data_bytes: b },
        }
    }

    /// Parse the header of a `cas` command from its tokens.
    fn parse_cas(toks: &Vec<Vec<u8>>, consumed: usize) -> (r: ParseResult)
        ensures
            cas_header_post(toks.deep_view(), consumed as int, r),
    {
        let ghost tseq = toks.deep_view();
        if toks.len() < 6 {
            return ParseResult::Error(ParseError::InvalidCommand);
        }
        proof {
            assert(toks@[1]@ == tseq[1]);
            assert(toks@[4]@ == tseq[4]);
        }
        if toks[1].len() > MAX_KEY_LENGTH {
            return ParseResult::Error(ParseError::KeyTooLong(
                crate::storage::clone_bytes(&toks[1]),
            ));
        }
        match parse_usize(toks[4].as_slice()) {
            None => ParseResult::Error(ParseError::InvalidNumber),
            Some(b) => ParseResult::NeedData { command_bytes: consumed, data_bytes: b },
        }
    }

    /// Parse a `delete` command from its tokens.
    fn parse_delete(toks: &Vec<Vec<u8>>, consumed: usize) -> (r: ParseResult)
        ensures
            delete_post(toks.deep_view(), consumed as int, r),
    {
        let ghost tseq = toks.deep_view();
        if toks.len() < 2 {
            return ParseResult::Error(ParseError::InvalidCommand);
        }
        proof {
            assert(toks@[1]@ == tseq[1]);
        }
        if toks[1].len() > MAX_KEY_LENGTH {
            return ParseResult::Error(ParseError::KeyTooLong(
                crate::storage::clone_bytes(&toks[1]),
            ));
        }
        let noreply = if toks.len() > 2 {
            proof {
                assert(toks@[2]@ == tseq[2]);
            }
            is_noreply(&toks[2])
        } else {
            false
        };
        ParseResult::Complete(
            Command::Delete { key: crate::storage::clone_bytes(&toks[1]), noreply },
            consumed,
        )
    }

    /// Parse an `incr` or `decr` command from its tokens.
    fn parse_incr_decr(toks: &Vec<Vec<u8>>, is_incr: bool, consumed: usize) -> (r: ParseResult)
        ensures
            incr_post(toks.deep_view(), is_incr, consumed as int, r),
    {
        let ghost tseq = toks.deep_view();
        if toks.len() < 3 {
            return ParseResult::Error(ParseError::InvalidCommand);
        }
        proof {
            assert(toks@[1]@ == tseq[1]);
            assert(toks@[2]@ == tseq[2]);
        }
        if toks[1].len() > MAX_KEY_LENGTH {
            return ParseResult::Error(ParseError::KeyTooLong(
                crate::storage::clone_bytes(&toks[1]),
            ));
        }
        let value = match parse_u64(toks[2].as_slice()) {
            Some(v) => v,
            None => {
                return ParseResult::Error(ParseError::InvalidNumber);
            }
        };
        let noreply = if toks.len() > 3 {
            proof {
                assert(toks@[3]@ == tseq[3]);
            }
            is_noreply(&toks[3])
        } else {
            false
        };
        let key = crate::storage::clone_bytes(&toks[1]);
        if is_incr {
            ParseResult::Complete(Command::Incr { key, value, noreply }, consumed)
        } else {
            ParseResult::Complete(Command::Decr { key, value, noreply }, consumed)
        }
    }

    /// Parse a `flush_all` command from its tokens.
    fn parse_flush_all(toks: &Vec<Vec<u8>>, consumed: usize) -> (r: ParseResult)
        ensures
            flush_post(toks.deep_view(), consumed as int, r),
    {
        let ghost tseq = toks.deep_view();
        let mut delay: u64 = 0;
        let mut noreply = false;
        if toks.len() > 1 {
            proof {
                assert(toks@[1]@ == tseq[1]);
            }
            if is_noreply(&toks[1]) {
                noreply = true;
            } else {
                delay = match parse_u64(toks[1].as_slice()) {
                    Some(v) => v,
                    None => 0,
                };
                if toks.len() > 2 {
                    proof {
                        assert(toks@[2]@ == tseq[2]);
                    }
                    if is_noreply(&toks[2]) {
                        noreply = true;
                    }
                }
            }
        }
        ParseResult::Complete(Command::FlushAll { delay, noreply }, consumed)
    }
}

/// Byte-vector equality.
pub fn eq_bytes(a: &Vec<u8>, b: &[u8]) -> (r: bool)
    ensures
        r <==> a@ == b@,
{
    crate::storage::bytes_eq(a.as_slice(), b)
}

/// Find the point to resume parsing after an error: just past the next
/// line terminator.
pub fn find_recovery_point(buffer: &[u8]) -> (r: Option<usize>)
    ensures
        match r {
            Some(p) => spec_find_crlf(buffer@) >= 0 && p == spec_find_crlf(buffer@) + 2,
            None => spec_find_crlf(buffer@) == -1,
        },
{
    let n = buffer.len();
    match find_crlf(buffer) {
        Some(pos) => Some(pos + 2),
        None => None,
    }
}



/// The `VALUE ` prefix as bytes.
pub const VALUE_SP_B: [u8; 6] = [86u8, 65u8, 76u8, 85u8, 69u8, 32u8];
/// The `CLIENT_ERROR ` prefix as bytes.
pub const CLIENT_ERR_B: [u8; 13] = [67u8, 76u8, 73u8, 69u8, 78u8, 84u8, 95u8, 69u8, 82u8, 82u8, 79u8, 82u8, 32u8];
/// The `SERVER_ERROR ` prefix as bytes.
pub const SERVER_ERR_B: [u8; 13] = [83u8, 69u8, 82u8, 86u8, 69u8, 82u8, 95u8, 69u8, 82u8, 82u8, 79u8, 82u8, 32u8];
/// The `STAT ` prefix as bytes.
pub const STAT_SP_B: [u8; 5] = [83u8, 84u8, 65u8, 84u8, 32u8];

/// Exact meaning of `Parser::parse_with_data` on `input`: the complete
/// two-phase parse of a storage command, its data block included.
pub open spec fn parse_with_data_post(input: Seq<u8>, r: ParseResult) -> bool {
    let e = spec_find_crlf(input);
    let line = input.take(e);
    let toks = spec_tokens(line);
    if e == -1 {
        r == ParseResult::Error(ParseError::Incomplete)
    } else if toks.len() == 0 {
        r == ParseResult::Error(ParseError::InvalidCommand)
    } else {
        let cmd = lower_seq(toks[0]);
        let is_cas = cmd == kw_cas();
        let is_plain = cmd == kw_set() || cmd == kw_add() || cmd == kw_replace()
            || cmd == kw_append() || cmd == kw_prepend();
        if !(is_plain || is_cas) {
            r == ParseResult::Error(ParseError::InvalidCommand)
        } else if (is_plain && toks.len() < 5) || (is_cas && toks.len() < 6) {
            r == ParseResult::Error(ParseError::InvalidCommand)
        } else {
            match spec_parse_usize(toks[4]) {
                None => r == ParseResult::Error(ParseError::InvalidNumber),
                Some(db) => {
                    let total = e + 2 + db + 2;
                    if input.len() < total {
                        r == ParseResult::Error(ParseError::Incomplete)
                    } else if input[e + 2 + db] != 13 || input[e + 2 + db + 1] != 10 {
                        r == ParseResult::Error(ParseError::InvalidCommand)
                    } else if toks[1].len() > MAX_KEY_LENGTH {
                        match r {
                            ParseResult::Error(ParseError::KeyTooLong(k)) => k@ == toks[1],
                            _ => false,
                        }
                    } else {
                        let want_flags: u32 = match spec_parse_u32(toks[2]) {
                            Some(f) => f,
                            None => 0u32,
                        };
                        let want_expt: u64 = match spec_parse_u64(toks[3]) {
                            Some(t) => t,
                            None => 0u64,
                        };
                        let nr_idx: int = if is_cas { 6 } else { 5 };
                        let want_nr = toks.len() > nr_idx
                            && eq_nocase(toks[nr_idx], kw_noreply());
                        match r {
                            ParseResult::Complete(c2, tot) => {
                                &&& tot == total
                                &&& match c2 {
                                    Command::SetCmd { key, flags, exptime, bytes, noreply } => {
                                        &&& cmd == kw_set()
                                        &&& key@ == toks[1]
                                        &&& flags == want_flags
                                        &&& exptime == want_expt
                                        &&& bytes == db
                                        &&& noreply == want_nr
                                    },
                                    Command::Add { key, flags, exptime, bytes, noreply } => {
                                        &&& cmd == kw_add()
                                        &&& key@ == toks[1]
                                        &&& flags == want_flags
                                        &&& exptime == want_expt
                                        &&& bytes == db
                                        &&& noreply == want_nr
                                    },
                                    Command::Replace { key, flags, exptime, bytes, noreply } => {
                                        &&& cmd == kw_replace()
                                        &&& key@ == toks[1]
                                        &&& flags == want_flags
                                        &&& exptime == want_expt
                                        &&& bytes == db
                                        &&& noreply == want_nr
                                    },
                                    Command::Append { key, flags, exptime, bytes, noreply } => {
                                        &&& cmd == kw_append()
                                        &&& key@ == toks[1]
                                        &&& flags == want_flags
                                        &&& exptime == want_expt
                                        &&& bytes == db
                                        &&& noreply == want_nr
                                    },
                                    Command::Prepend { key, flags, exptime, bytes, noreply } => {
                                        &&& cmd == kw_prepend()
                                        &&& key@ == toks[1]
                                        &&& flags == want_flags
                                        &&& exptime == want_expt
                                        &&& bytes == db
                                        &&& noreply == want_nr
                                    },
                                    Command::Cas {
                                        key, flags, exptime, bytes, cas_unique, noreply,
                                    } => {
                                        &&& is_cas
                                        &&& key@ == toks[1]
                                        &&& flags == want_flags
                                        &&& exptime == want_expt
                                        &&& bytes == db
                                        &&& cas_unique == (match spec_parse_u64(toks[5]) {
                                            Some(t) => t,
                                            None => 0u64,
                                        })
                                        &&& noreply == want_nr
                                    },
                                    _ => false,
                                }
                            },
                            _ => false,
                        }
                    }
                },
            }
        }
    }
}

impl Parser {
    /// Parse a complete storage command, data block included.
    pub fn parse_with_data(buffer: &[u8]) -> (r: ParseResult)
        ensures
            parse_with_data_post(buffer@, r),
    {
        let n = buffer.len();
        let line_end = match find_crlf(buffer) {
            Some(pos) => pos,
            None => {
                return ParseResult::Error(ParseError::Incomplete);
            }
        };
        let line = &buffer[0..line_end];
        proof {
            assert(line@ =~= buffer@.take(line_end as int));
        }
        let toks = tokenize(line);
        let ghost tseq = spec_tokens(line@);
        if toks.len() == 0 {
            return ParseResult::Error(ParseError::InvalidCommand);
        }
        proof {
            assert(toks@[0]@ == tseq[0]);
        }
        let cmd = lower_bytes(toks[0].as_slice());
        let is_cas = eq_bytes(&cmd, KW_CAS_B.as_slice());
        let is_plain = eq_bytes(&cmd, KW_SET_B.as_slice())
            || eq_bytes(&cmd, KW_ADD_B.as_slice())
            || eq_bytes(&cmd, KW_REPLACE_B.as_slice())
            || eq_bytes(&cmd, KW_APPEND_B.as_slice())
            || eq_bytes(&cmd, KW_PREPEND_B.as_slice());
        if !(is_plain || is_cas) {
            return ParseResult::Error(ParseError::InvalidCommand);
        }
        if (is_plain && toks.len() < 5) || (is_cas && toks.len() < 6) {
            return ParseResult::Error(ParseError::InvalidCommand);
        }
        proof {
            assert(toks@[1]@ == tseq[1]);
            assert(toks@[2]@ == tseq[2]);
            assert(toks@[3]@ == tseq[3]);
            assert(toks@[4]@ == tseq[4]);
        }
        let db = match parse_usize(toks[4].as_slice()) {
            Some(b) => b,
            None => {
                return ParseResult::Error(ParseError::InvalidNumber);
            }
        };
        let header = line_end + 2;
        let remaining = n - header;
        if (db as u64) > u64::MAX - 2 || (db as u64) + 2 > remaining as u64 {
            proof {
                assert(buffer@.len() < line_end + 2 + db + 2);
            }
            return ParseResult::Error(ParseError::Incomplete);
        }
        let data_end = header + db;
        if buffer[data_end] != 13 || buffer[data_end + 1] != 10 {
            return ParseResult::Error(ParseError::InvalidCommand);
        }
        if toks[1].len() > MAX_KEY_LENGTH {
            return ParseResult::Error(ParseError::KeyTooLong(
                crate::storage::clone_bytes(&toks[1]),
            ));
        }
        let flags = match parse_u32(toks[2].as_slice()) {
            Some(f) => f,
            None => 0,
        };
        let exptime = match parse_u64(toks[3].as_slice()) {
            Some(t) => t,
            None => 0,
        };
        let nr_idx = if is_cas { 6 } else { 5 };
        let noreply = if toks.len() > nr_idx {
            proof {
                assert(toks@[nr_idx as int]@ == tseq[nr_idx as int]);
            }
            is_noreply(&toks[nr_idx])
        } else {
            false
        };
        let key = crate::storage::clone_bytes(&toks[1]);
        let total = data_end + 2;
        if is_cas {
            proof {
                assert(toks@[5]@ == tseq[5]);
            }
            let cas_unique = match parse_u64(toks[5].as_slice()) {
                Some(t) => t,
                None => 0,
            };
            ParseResult::Complete(
                Command::Cas { key, flags, exptime, bytes: db, cas_unique, noreply },
                total,
            )
        } else if eq_bytes(&cmd, KW_SET_B.as_slice()) {
            ParseResult::Complete(
                Command::SetCmd { key, flags, exptime, bytes: db, noreply },
                total,
            )
        } else if eq_bytes(&cmd, KW_ADD_B.as_slice()) {
            ParseResult::Complete(
                Command::Add { key, flags, exptime, bytes: db, noreply },
                total,
            )
        } else if eq_bytes(&cmd, KW_REPLACE_B.as_slice()) {
            ParseResult::Complete(
                Command::Replace { key, flags, exptime, bytes: db, noreply },
                total,
            )
        } else if eq_bytes(&cmd, KW_APPEND_B.as_slice()) {
            ParseResult::Complete(
                Command::Append { key, flags, exptime, bytes: db, noreply },
                total,
            )
        } else {
            ParseResult::Complete(
                Command::Prepend { key, flags, exptime, bytes: db, noreply },
                total,
            )
        }
    }

    /// The data block of a storage command within `buffer`, when it is all
    /// there.
    pub fn extract_data(buffer: &[u8], command_bytes: usize, data_bytes: usize) -> (r: Option<
        Vec<u8>,
    >)
        requires
            command_bytes + data_bytes + 2 <= usize::MAX,
        ensures
            match r {
                Some(d) => {
                    &&& buffer@.len() >= command_bytes + data_bytes + 2
                    &&& d@ == buffer@.subrange(
                        command_bytes as int, command_bytes + data_bytes,
                    )
                },
                None => buffer@.len() < command_bytes + data_bytes + 2,
            },
    {
        let total = command_bytes + data_bytes + 2;
        if buffer.len() < total {
            return None;
        }
        Some(vstd::slice::slice_to_vec(&buffer[command_bytes..command_bytes + data_bytes]))
    }
}

/// The header and framing of a `VALUE` response.
pub open spec fn value_line(key: Seq<u8>, flags: u32, data: Seq<u8>, cas: Option<u64>) -> Seq<u8> {
    seq![86u8, 65u8, 76u8, 85u8, 69u8, 32u8]
        + key + seq![32u8]
        + dec_digits(flags as nat) + seq![32u8]
        + dec_digits(data.len())
        + (match cas {
            Some(c) => seq![32u8] + dec_digits(c as nat),
            None => Seq::empty(),
        })
        + seq![13u8, 10u8]
        + data + seq![13u8, 10u8]
}

/// The `CLIENT_ERROR ` prefix.
pub open spec fn client_error_prefix() -> Seq<u8> {
    seq![67u8, 76u8, 73u8, 69u8, 78u8, 84u8, 95u8, 69u8, 82u8, 82u8, 79u8, 82u8, 32u8]
}

/// The `SERVER_ERROR ` prefix.
pub open spec fn server_error_prefix() -> Seq<u8> {
    seq![83u8, 69u8, 82u8, 86u8, 69u8, 82u8, 95u8, 69u8, 82u8, 82u8, 79u8, 82u8, 32u8]
}

/// The `STAT ` prefix.
pub open spec fn stat_prefix() -> Seq<u8> {
    seq![83u8, 84u8, 65u8, 84u8, 32u8]
}

/// Response formatter for the memcached text protocol.
pub struct Response;

impl Response {
    /// A `VALUE` response: header line, data block, terminator.
    pub fn value(key: &[u8], flags: u32, data: &[u8], cas: Option<u64>) -> (r: Vec<u8>)
        ensures
            r@ == value_line(key@, flags, data@, cas),
    {
        let mut out: Vec<u8> = Vec::new();
        let head = VALUE_SP_B;
        out.extend_from_slice(head.as_slice());
        out.extend_from_slice(key);
        out.push(32u8);
        let f = format_u64(flags as u64);
        out.extend_from_slice(f.as_slice());
        out.push(32u8);
        let l = format_u64(data.len() as u64);
        out.extend_from_slice(l.as_slice());
        match cas {
            Some(c) => {
                out.push(32u8);
                let cs = format_u64(c);
                out.extend_from_slice(cs.as_slice());
            }
            None => {}
        }
        out.push(13u8);
        out.push(10u8);
        out.extend_from_slice(data);
        out.push(13u8);
        out.push(10u8);
        proof {
            assert(out@ =~= value_line(key@, flags, data@, cas));
        }
        out
    }

    /// The `end` response line.
    pub fn end() -> (r: Vec<u8>)
        ensures
            r@ == end_line(),
    {
        let bytes = [69u8, 78u8, 68u8, 13u8, 10u8];
        let out = vstd::slice::slice_to_vec(bytes.as_slice());
        proof {
            assert(out@ =~= end_line());
        }
        out
    }

    /// The `stored` response line.
    pub fn stored() -> (r: Vec<u8>)
        ensures
            r@ == stored_line(),
    {
        let bytes = [83u8, 84u8, 79u8, 82u8, 69u8, 68u8, 13u8, 10u8];
        let out = vstd::slice::slice_to_vec(bytes.as_slice());
        proof {
            assert(out@ =~= stored_line());
        }
        out
    }

    /// The `not_stored` response line.
    pub fn not_stored() -> (r: Vec<u8>)
        ensures
            r@ == not_stored_line(),
    {
        let bytes = [78u8, 79u8, 84u8, 95u8, 83u8, 84u8, 79u8, 82u8, 69u8, 68u8, 13u8, 10u8];
        let out = vstd::slice::slice_to_vec(bytes.as_slice());
        proof {
            assert(out@ =~= not_stored_line());
        }
        out
    }

    /// The `exists` response line.
    pub fn exists_resp() -> (r: Vec<u8>)
        ensures
            r@ == exists_line(),
    {
        let bytes = [69u8, 88u8, 73u8, 83u8, 84u8, 83u8, 13u8, 10u8];
        let out = vstd::slice::slice_to_vec(bytes.as_slice());
        proof {
            assert(out@ =~= exists_line());
        }
        out
    }

    /// The `not_found` response line.
    pub fn not_found() -> (r: Vec<u8>)
        ensures
            r@ == not_found_line(),
    {
        let bytes = [78u8, 79u8, 84u8, 95u8, 70u8, 79u8, 85u8, 78u8, 68u8, 13u8, 10u8];
        let out = vstd::slice::slice_to_vec(bytes.as_slice());
        proof {
            assert(out@ =~= not_found_line());
        }
        out
    }

    /// The `deleted` response line.
    pub fn deleted() -> (r: Vec<u8>)
        ensures
            r@ == deleted_line(),
    {
        let bytes = [68u8, 69u8, 76u8, 69u8, 84u8, 69u8, 68u8, 13u8, 10u8];
        let out = vstd::slice::slice_to_vec(bytes.as_slice());
        proof {
            assert(out@ =~= deleted_line());
        }
        out
    }

    /// The `ok` response line.
    pub fn ok() -> (r: Vec<u8>)
        ensures
            r@ == ok_line(),
    {
        let bytes = [79u8, 75u8, 13u8, 10u8];
        let out = vstd::slice::slice_to_vec(bytes.as_slice());
        proof {
            assert(out@ =~= ok_line());
        }
        out
    }

    /// The `error` response line.
    pub fn error() -> (r: Vec<u8>)
        ensures
            r@ == error_line(),
    {
        let bytes = [69u8, 82u8, 82u8, 79u8, 82u8, 13u8, 10u8];
        let out = vstd::slice::slice_to_vec(bytes.as_slice());
        proof {
            assert(out@ =~= error_line());
        }
        out
    }

    /// The `version` response line.
    pub fn version() -> (r: Vec<u8>)
        ensures
            r@ == version_line(),
    {
        let bytes = [86u8, 69u8, 82u8, 83u8, 73u8, 79u8, 78u8, 32u8, 103u8, 114u8, 111u8, 119u8, 45u8, 97u8, 45u8, 99u8, 97u8, 99u8, 104u8, 101u8, 32u8, 48u8, 46u8, 49u8, 46u8, 48u8, 13u8, 10u8];
        let out = vstd::slice::slice_to_vec(bytes.as_slice());
        proof {
            assert(out@ =~= version_line());
        }
        out
    }

    /// A `CLIENT_ERROR` response line.
    pub fn client_error(msg: &[u8]) -> (r: Vec<u8>)
        ensures
            r@ == client_error_prefix() + msg@ + seq![13u8, 10u8],
    {
        let mut out: Vec<u8> = Vec::new();
        let head = CLIENT_ERR_B;
        out.extend_from_slice(head.as_slice());
        out.extend_from_slice(msg);
        out.push(13u8);
        out.push(10u8);
        proof {
            assert(out@ =~= client_error_prefix() + msg@ + seq![13u8, 10u8]);
        }
        out
    }

    /// A `SERVER_ERROR` response line.
    pub fn server_error(msg: &[u8]) -> (r: Vec<u8>)
        ensures
            r@ == server_error_prefix() + msg@ + seq![13u8, 10u8],
    {
        let mut out: Vec<u8> = Vec::new();
        let head = SERVER_ERR_B;
        out.extend_from_slice(head.as_slice());
        out.extend_from_slice(msg);
        out.push(13u8);
        out.push(10u8);
        proof {
            assert(out@ =~= server_error_prefix() + msg@ + seq![13u8, 10u8]);
        }
        out
    }

    /// A numeric response line (for `incr`/`decr`).
    pub fn numeric(value: u64) -> (r: Vec<u8>)
        ensures
            r@ == dec_digits(value as nat) + seq![13u8, 10u8],
    {
        let mut out = format_u64(value);
        out.push(13u8);
        out.push(10u8);
        proof {
            assert(out@ =~= dec_digits(value as nat) + seq![13u8, 10u8]);
        }
        out
    }

    /// A `STAT` line.
    pub fn stat(name: &[u8], value: &[u8]) -> (r: Vec<u8>)
        ensures
            r@ == stat_prefix() + name@ + seq![32u8] + value@ + seq![13u8, 10u8],
    {
        let mut out: Vec<u8> = Vec::new();
        let head = STAT_SP_B;
        out.extend_from_slice(head.as_slice());
        out.extend_from_slice(name);
        out.push(32u8);
        out.extend_from_slice(value);
        out.push(13u8);
        out.push(10u8);
        proof {
            assert(out@ =~= stat_prefix() + name@ + seq![32u8] + value@ + seq![13u8, 10u8]);
        }
        out
    }
}

} // verus!

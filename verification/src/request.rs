//! The request dispatcher: one synchronous `process one buffer` step per
//! protocol. It parses what sits in the input buffer, executes the command
//! against the store, and leaves the response in the output buffer, telling
//! the event loop what to do next.

use vstd::prelude::*;
use crate::num::{dec_digits, spec_parse_u64, parse_u64};
use crate::protocol::{
    Command, ParseError, ParseResult, Parser, Response,
    parse_post, parse_with_data_post, spec_tokens, lemma_tokens_len, eq_bytes,
    end_line, stored_line, not_stored_line, exists_line, not_found_line, deleted_line,
    ok_line, error_line, version_line, client_error_prefix, stat_prefix, value_line,
};
use crate::storage::{CacheItem, Storage, StorageResult, ITEM_OVERHEAD};
use crate::resp::{Frame, FrameModel, ParseModel, view_elems, spec_encode};
use crate::wire::{copy_response, spec_find_crlf, eq_nocase, eq_nocase_bytes};

verus! {

/// Protocol spoken on a connection.
#[derive(Debug, Clone, Copy, PartialEq, Eq, Structural)]
pub enum Protocol {
    /// Memcached text protocol.
    Memcached,
    /// Redis serialization protocol.
    Resp,
    /// Ping protocol.
    Ping,
    /// Length-prefixed echo protocol.
    Echo,
}

/// What the event loop must do after one processing step.
#[derive(Debug)]
pub enum ProcessResult {
    /// Need more data to complete parsing.
    NeedData,
    /// The value exceeds one buffer: read it into a chain.
    NeedChain {
        /// Bytes consumed by the command header.
        command_len: usize,
        /// Declared value size.
        value_len: usize,
    },
    /// A response was written into the output buffer.
    Response {
        /// Bytes consumed from the input.
        consumed: usize,
        /// Bytes of response written.
        response_len: usize,
    },
    /// The response exceeds the output buffer: write it from a chain.
    LargeResponse {
        /// Bytes consumed from the input.
        consumed: usize,
        /// The whole response.
        response_data: Vec<u8>,
    },
    /// The client asked to quit.
    Quit,
    /// Protocol error; the connection should be closed.
    Error,
}

/// Whitespace trimmed off stored numerals before `incr`/`decr`.
pub open spec fn is_trim_ws(b: u8) -> bool {
    b == 32 || b == 9 || b == 13 || b == 10
}

/// `s` with leading and trailing whitespace removed.
pub open spec fn spec_trim(s: Seq<u8>) -> Seq<u8>
    decreases s.len(),
{
    if s.len() == 0 {
        s
    } else if is_trim_ws(s[0]) {
        spec_trim(s.drop_first())
    } else if is_trim_ws(s.last()) {
        spec_trim(s.drop_last())
    } else {
        s
    }
}

/// `spec_trim` is the subrange between the outermost non-whitespace bytes.
proof fn lemma_trim(s: Seq<u8>, lo: int, hi: int)
    requires
        0 <= lo <= hi <= s.len(),
        forall|j: int| 0 <= j < lo ==> is_trim_ws(#[trigger] s[j]),
        forall|j: int| hi <= j < s.len() ==> is_trim_ws(#[trigger] s[j]),
        lo < hi ==> !is_trim_ws(s[lo]) && !is_trim_ws(s[hi - 1]),
        lo == hi ==> lo == 0,
        lo == hi ==> hi == s.len() || is_trim_ws(s[0]),
    ensures
        spec_trim(s) == s.subrange(lo, hi),
    decreases s.len(),
{
    if s.len() == 0 {
        assert(spec_trim(s) =~= s.subrange(lo, hi));
    } else if is_trim_ws(s[0]) {
        let t = s.drop_first();
        assert(forall|j: int| 0 <= j < s.len() - 1 ==> t[j] == s[j + 1]);
        if lo == hi {
            if hi == s.len() {
                lemma_trim(t, 0, t.len() as int);
                assert(spec_trim(t) == t.subrange(0, t.len() as int));
                assert(t =~= t.subrange(0, t.len() as int));
                assert(t.len() == 0 || is_trim_ws(t[0])) by {
                    if t.len() > 0 {
                        assert(t[0] == s[1]);
                    }
                }
                if t.len() > 0 {
                    lemma_trim(t, 0, 0);
                    assert(spec_trim(s) =~= s.subrange(lo, hi));
                } else {
                    assert(spec_trim(s) =~= s.subrange(lo, hi));
                }
            } else {
                lemma_trim(t, 0, 0);
                assert(spec_trim(s) =~= s.subrange(lo, hi));
            }
        } else {
            assert(lo >= 1);
            lemma_trim(t, lo - 1, hi - 1);
            assert(s.subrange(lo, hi) =~= t.subrange(lo - 1, hi - 1));
        }
    } else if is_trim_ws(s.last()) {
        let t = s.drop_last();
        assert(forall|j: int| 0 <= j < s.len() - 1 ==> t[j] == s[j]);
        assert(lo == 0);
        if lo == hi {
            assert(hi != s.len());
            assert(false);
        } else {
            assert(hi <= s.len() - 1);
            lemma_trim(t, lo, hi);
            assert(s.subrange(lo, hi) =~= t.subrange(lo, hi));
        }
    } else {
        assert(lo == 0);
        assert(hi == s.len());
        assert(s =~= s.subrange(lo, hi));
    }
}

/// Trim leading and trailing whitespace off a byte string.
pub fn trim_bytes(s: &[u8]) -> (r: Vec<u8>)
    ensures
        r@ == spec_trim(s@),
{
    let n = s.len();
    let mut lo: usize = 0;
    while lo < n && (s[lo] == 32 || s[lo] == 9 || s[lo] == 13 || s[lo] == 10)
        invariant
            n == s@.len(),
            lo <= n,
            forall|j: int| 0 <= j < lo ==> is_trim_ws(#[trigger] s@[j]),
        decreases n - lo,
    {
        lo = lo + 1;
    }
    let mut hi: usize = n;
    while hi > lo && (s[hi - 1] == 32 || s[hi - 1] == 9 || s[hi - 1] == 13 || s[hi - 1] == 10)
        invariant
            n == s@.len(),
            lo <= hi <= n,
            forall|j: int| 0 <= j < lo ==> is_trim_ws(#[trigger] s@[j]),
            forall|j: int| hi <= j < n ==> is_trim_ws(#[trigger] s@[j]),
            lo < n ==> !is_trim_ws(s@[lo as int]),
        decreases hi,
    {
        hi = hi - 1;
    }
    proof {
        if lo == hi {
            assert(forall|j: int| 0 <= j < n ==> is_trim_ws(#[trigger] s@[j]));
            lemma_trim(s@, 0, 0);
            assert(s@.subrange(0, 0) =~= s@.subrange(lo as int, hi as int));
        } else {
            lemma_trim(s@, lo as int, hi as int);
        }
    }
    vstd::slice::slice_to_vec(&s[lo..hi])
}

/// The wrapped/saturated result of `incr`/`decr`.
pub open spec fn incr_value(cur: u64, delta: u64, is_incr: bool) -> u64 {
    if is_incr {
        ((cur + delta) % 0x1_0000_0000_0000_0000) as u64
    } else if cur >= delta {
        (cur - delta) as u64
    } else {
        0u64
    }
}

/// Message of the client error for a non-numeric `incr`/`decr` target.
pub open spec fn non_numeric_msg() -> Seq<u8> {
    seq![99u8, 97u8, 110u8, 110u8, 111u8, 116u8, 32u8, 105u8, 110u8, 99u8, 114u8, 101u8, 109u8, 101u8, 110u8, 116u8, 32u8, 111u8, 114u8, 32u8, 100u8, 101u8, 99u8, 114u8, 101u8, 109u8, 101u8, 110u8, 116u8, 32u8, 110u8, 111u8, 110u8, 45u8, 110u8, 117u8, 109u8, 101u8, 114u8, 105u8, 99u8, 32u8, 118u8, 97u8, 108u8, 117u8, 101u8]
}

/// What `handle_incr_decr` does: a miss answers `NOT_FOUND`; a non-numeric
/// value answers a client error; otherwise the adjusted value is stored
/// with the item's flags and no TTL, and the numeral is the response.
/// `incr` wraps on overflow; `decr` stops at zero.
pub open spec fn incr_decr_post(
    pre: Storage,
    post: Storage,
    key: Seq<u8>,
    delta: u64,
    is_incr: bool,
    now: u64,
    out: Seq<u8>,
) -> bool {
    exists|mid: Storage, h: Option<CacheItem>|
        {
            &&& #[trigger] Storage::get_post(pre, mid, key, now, h)
            &&& mid.wf()
            &&& match h {
                None => {
                    &&& out == not_found_line()
                    &&& post == mid
                },
                Some(it) => {
                    match spec_parse_u64(spec_trim(it.value@)) {
                        None => {
                            &&& out == client_error_prefix() + non_numeric_msg()
                                + seq![13u8, 10u8]
                            &&& post == mid
                        },
                        Some(cur) => {
                            let newv = incr_value(cur, delta, is_incr);
                            &&& Storage::set_post(
                                mid, post, key, dec_digits(newv as nat), it.flags, 0, now,
                                StorageResult::Stored,
                            )
                            &&& out == dec_digits(newv as nat) + seq![13u8, 10u8]
                        },
                    }
                },
            }
        }
}

/// Increment or decrement the numeral stored under `key`.
pub fn handle_incr_decr(
    storage: &mut Storage,
    key: &[u8],
    delta: u64,
    is_incr: bool,
    now: u64,
) -> (out: Vec<u8>)
    requires
        old(storage).wf(),
        old(storage).cas_counter < u64::MAX,
        old(storage).access_counter < u64::MAX - 1,
        ITEM_OVERHEAD + key@.len() + 20 <= usize::MAX,
    ensures
        final(storage).wf(),
        incr_decr_post(*old(storage), *final(storage), key@, delta, is_incr, now, out@),
{
    let h = storage.get_at(key, now);
    let ghost mid = *storage;
    let ghost h_g = h;
    match h {
        None => {
            let out = Response::not_found();
            proof {
                assert(Storage::get_post(*old(storage), mid, key@, now, h_g));
            }
            out
        }
        Some(item) => {
            let trimmed = trim_bytes(item.value.as_slice());
            match parse_u64(trimmed.as_slice()) {
                None => {
                    let msg = NON_NUMERIC_B;
                    let out = Response::client_error(msg.as_slice());
                    proof {
                        assert(msg@ =~= non_numeric_msg());
                        assert(Storage::get_post(*old(storage), mid, key@, now, h_g));
                    }
                    out
                }
                Some(cur) => {
                    let newv: u64 = if is_incr {
                        cur.wrapping_add(delta)
                    } else if cur >= delta {
                        cur - delta
                    } else {
                        0
                    };
                    proof {
                        assert(newv == incr_value(cur, delta, is_incr));
                        crate::num::lemma_dec_digits_value(newv as nat);
                        lemma_dec_digits_len(newv);
                    }
                    let digits = crate::num::format_u64(newv);
                    let res = storage.set_at(key, digits, item.flags, 0, now);
                    let out = Response::numeric(newv);
                    proof {
                        assert(Storage::get_post(*old(storage), mid, key@, now, h_g));
                    }
                    out
                }
            }
        }
    }
}

/// Powers of ten.
spec fn pow10(k: nat) -> nat
    decreases k,
{
    if k == 0 {
        1
    } else {
        10 * pow10((k - 1) as nat)
    }
}

/// A numeral below `10^k` has at most `k` digits.
proof fn lemma_dec_digits_len_pow(n: nat, k: nat)
    requires
        1 <= k,
        n < pow10(k),
    ensures
        dec_digits(n).len() <= k,
    decreases k,
{
    if n >= 10 {
        assert(pow10(k) == 10 * pow10((k - 1) as nat));
        assert(pow10((k - 1) as nat) > 1) by {
            if pow10((k - 1) as nat) <= 1 {
                assert(pow10(k) <= 10);
            }
        }
        vstd::arithmetic::div_mod::lemma_multiply_divide_lt(
            n as int, 10, pow10((k - 1) as nat) as int,
        );
        lemma_dec_digits_len_pow(n / 10, (k - 1) as nat);
    }
}

/// The digits of a `u64` are at most 20 bytes.
proof fn lemma_dec_digits_len(n: u64)
    ensures
        dec_digits(n as nat).len() <= 20,
{
    reveal_with_fuel(pow10, 21);
    assert(pow10(20) > u64::MAX);
    lemma_dec_digits_len_pow(n as nat, 20);
}


/// The non-numeric-value message as bytes.
const NON_NUMERIC_B: [u8; 47] = [99u8, 97u8, 110u8, 110u8, 111u8, 116u8, 32u8, 105u8, 110u8, 99u8, 114u8, 101u8, 109u8, 101u8, 110u8, 116u8, 32u8, 111u8, 114u8, 32u8, 100u8, 101u8, 99u8, 114u8, 101u8, 109u8, 101u8, 110u8, 116u8, 32u8, 110u8, 111u8, 110u8, 45u8, 110u8, 117u8, 109u8, 101u8, 114u8, 105u8, 99u8, 32u8, 118u8, 97u8, 108u8, 117u8, 101u8];

/// The stat name `curr_items` as bytes.
const CURR_ITEMS_B: [u8; 10] = [99u8, 117u8, 114u8, 114u8, 95u8, 105u8, 116u8, 101u8, 109u8, 115u8];
/// The stat name `bytes` as bytes.
const BYTES_B: [u8; 5] = [98u8, 121u8, 116u8, 101u8, 115u8];
/// The stat name `limit_maxbytes` as bytes.
const LIMIT_B: [u8; 14] = [108u8, 105u8, 109u8, 105u8, 116u8, 95u8, 109u8, 97u8, 120u8, 98u8, 121u8, 116u8, 101u8, 115u8];

/// The `VALUE` lines for the items of a multi-get, in order.
pub open spec fn values_bytes(items: Seq<(Vec<u8>, CacheItem)>, with_cas: bool) -> Seq<u8>
    decreases items.len(),
{
    if items.len() == 0 {
        Seq::empty()
    } else {
        value_line(
            items.first().0@,
            items.first().1.flags,
            items.first().1.value@,
            if with_cas { Some(items.first().1.cas_unique) } else { None },
        ) + values_bytes(items.drop_first(), with_cas)
    }
}

/// `values_bytes` grows by one `VALUE` line per appended item.
proof fn lemma_values_bytes_push(items: Seq<(Vec<u8>, CacheItem)>, x: (Vec<u8>, CacheItem), with_cas: bool)
    ensures
        values_bytes(items.push(x), with_cas) == values_bytes(items, with_cas)
            + value_line(x.0@, x.1.flags, x.1.value@, if with_cas { Some(x.1.cas_unique) } else { None }),
    decreases items.len(),
{
    if items.len() == 0 {
        assert(items.push(x).drop_first() =~= items);
        assert(values_bytes(items.push(x), with_cas) =~= values_bytes(items, with_cas)
            + value_line(x.0@, x.1.flags, x.1.value@, if with_cas { Some(x.1.cas_unique) } else { None }));
    } else {
        assert(items.push(x).drop_first() =~= items.drop_first().push(x));
        assert(items.push(x).first() == items.first());
        lemma_values_bytes_push(items.drop_first(), x, with_cas);
        assert(values_bytes(items.push(x), with_cas) =~= values_bytes(items, with_cas)
            + value_line(x.0@, x.1.flags, x.1.value@, if with_cas { Some(x.1.cas_unique) } else { None }));
    }
}

/// The name `curr_items`.
pub open spec fn stat_curr_items() -> Seq<u8> {
    seq![99u8, 117u8, 114u8, 114u8, 95u8, 105u8, 116u8, 101u8, 109u8, 115u8]
}

/// The name `bytes`.
pub open spec fn stat_bytes_name() -> Seq<u8> {
    seq![98u8, 121u8, 116u8, 101u8, 115u8]
}

/// The name `limit_maxbytes`.
pub open spec fn stat_limit() -> Seq<u8> {
    seq![108u8, 105u8, 109u8, 105u8, 116u8, 95u8, 109u8, 97u8, 120u8, 98u8, 121u8, 116u8, 101u8, 115u8]
}

/// The `stats` response for a store.
pub open spec fn stats_bytes(s: Storage) -> Seq<u8> {
    stat_prefix() + stat_curr_items() + seq![32u8] + dec_digits(s.entries@.len()) + seq![13u8, 10u8]
        + stat_prefix() + stat_bytes_name() + seq![32u8] + dec_digits(s.memory_used as nat) + seq![13u8, 10u8]
        + stat_prefix() + stat_limit() + seq![32u8] + dec_digits(s.max_memory as nat) + seq![13u8, 10u8]
        + end_line()
}

/// What `execute_storage_command` does for each storage command: the
/// matching store operation runs at instant `now`, and the response names
/// its result (`noreply` suppresses it).
pub open spec fn exec_storage_post(
    cmd: Command,
    pre: Storage,
    post: Storage,
    data: Seq<u8>,
    now: u64,
    out: Seq<u8>,
) -> bool {
    match cmd {
        Command::SetCmd { key, flags, exptime, noreply, .. } => {
            &&& Storage::set_post(pre, post, key@, data, flags, exptime, now, StorageResult::Stored)
            &&& out == if noreply { Seq::<u8>::empty() } else { stored_line() }
        },
        Command::Add { key, flags, exptime, noreply, .. } => {
            let r = if pre.has_live(key@, now) { StorageResult::NotStored } else { StorageResult::Stored };
            &&& Storage::add_post(pre, post, key@, data, flags, exptime, now, r)
            &&& out == if noreply {
                Seq::<u8>::empty()
            } else if r == StorageResult::Stored {
                stored_line()
            } else {
                not_stored_line()
            }
        },
        Command::Replace { key, flags, exptime, noreply, .. } => {
            let r = if pre.has_live(key@, now) { StorageResult::Stored } else { StorageResult::NotStored };
            &&& Storage::replace_post(pre, post, key@, data, flags, exptime, now, r)
            &&& out == if noreply {
                Seq::<u8>::empty()
            } else if r == StorageResult::Stored {
                stored_line()
            } else {
                not_stored_line()
            }
        },
        Command::Append { key, noreply, .. } => exists|r: StorageResult|
            {
                &&& #[trigger] Storage::extend_post(pre, post, key@, data, false, now, r)
                &&& out == if noreply {
                    Seq::<u8>::empty()
                } else if r == StorageResult::Stored {
                    stored_line()
                } else {
                    not_stored_line()
                }
            },
        Command::Prepend { key, noreply, .. } => exists|r: StorageResult|
            {
                &&& #[trigger] Storage::extend_post(pre, post, key@, data, true, now, r)
                &&& out == if noreply {
                    Seq::<u8>::empty()
                } else if r == StorageResult::Stored {
                    stored_line()
                } else {
                    not_stored_line()
                }
            },
        Command::Cas { key, flags, exptime, cas_unique, noreply, .. } => exists|r: StorageResult|
            {
                &&& #[trigger] Storage::cas_post(pre, post, key@, data, flags, exptime, cas_unique, now, r)
                &&& out == if noreply {
                    Seq::<u8>::empty()
                } else if r == StorageResult::Stored {
                    stored_line()
                } else if r == StorageResult::CasMismatch {
                    exists_line()
                } else if r == StorageResult::NotFound {
                    not_found_line()
                } else {
                    not_stored_line()
                }
            },
        _ => {
            &&& post == pre
            &&& out == error_line()
        },
    }
}

/// Machine bounds a storage command needs at instant `now`.
pub open spec fn storage_cmd_bounds(cmd: Command, pre: Storage, data: Seq<u8>) -> bool {
    &&& pre.wf()
    &&& pre.cas_counter < u64::MAX
    &&& pre.access_counter < u64::MAX
    &&& match cmd {
        Command::SetCmd { key, .. } => ITEM_OVERHEAD + key@.len() + data.len() <= usize::MAX,
        Command::Add { key, .. } => ITEM_OVERHEAD + key@.len() + data.len() <= usize::MAX,
        Command::Replace { key, .. } => ITEM_OVERHEAD + key@.len() + data.len() <= usize::MAX,
        Command::Cas { key, .. } => ITEM_OVERHEAD + key@.len() + data.len() <= usize::MAX,
        Command::Append { .. } => pre.memory_used + data.len() <= usize::MAX,
        Command::Prepend { .. } => pre.memory_used + data.len() <= usize::MAX,
        _ => true,
    }
}

/// Execute a storage command (`set`, `add`, `replace`, `append`, `prepend`,
/// `cas`) with its data block.
pub fn execute_storage_command(
    command: &Command,
    storage: &mut Storage,
    data: &[u8],
    now: u64,
) -> (out: Vec<u8>)
    requires
        storage_cmd_bounds(*command, *old(storage), data@),
    ensures
        final(storage).wf(),
        exec_storage_post(*command, *old(storage), *final(storage), data@, now, out@),
{
    match command {
        Command::SetCmd { key, noreply, flags, exptime, .. } => {
            let r = storage.set_at(
                key.as_slice(), vstd::slice::slice_to_vec(data), *flags, *exptime, now,
            );
            if *noreply {
                Vec::new()
            } else {
                Response::stored()
            }
        }
        Command::Add { key, noreply, flags, exptime, .. } => {
            let r = storage.add_at(
                key.as_slice(), vstd::slice::slice_to_vec(data), *flags, *exptime, now,
            );
            if *noreply {
                Vec::new()
            } else {
                match r {
                    StorageResult::Stored => Response::stored(),
                    _ => Response::not_stored(),
                }
            }
        }
        Command::Replace { key, noreply, flags, exptime, .. } => {
            let r = storage.replace_at(
                key.as_slice(), vstd::slice::slice_to_vec(data), *flags, *exptime, now,
            );
            if *noreply {
                Vec::new()
            } else {
                match r {
                    StorageResult::Stored => Response::stored(),
                    _ => Response::not_stored(),
                }
            }
        }
        Command::Append { key, noreply, .. } => {
            let r = storage.append_at(key.as_slice(), data, now);
            if *noreply {
                Vec::new()
            } else {
                match r {
                    StorageResult::Stored => Response::stored(),
                    _ => Response::not_stored(),
                }
            }
        }
        Command::Prepend { key, noreply, .. } => {
            let r = storage.prepend_at(key.as_slice(), data, now);
            if *noreply {
                Vec::new()
            } else {
                match r {
                    StorageResult::Stored => Response::stored(),
                    _ => Response::not_stored(),
                }
            }
        }
        Command::Cas { key, noreply, flags, exptime, cas_unique, .. } => {
            let r = storage.cas_at(
                key.as_slice(), vstd::slice::slice_to_vec(data), *flags, *exptime,
                *cas_unique, now,
            );
            if *noreply {
                Vec::new()
            } else {
                match r {
                    StorageResult::Stored => Response::stored(),
                    StorageResult::CasMismatch => Response::exists_resp(),
                    StorageResult::NotFound => Response::not_found(),
                    _ => Response::not_stored(),
                }
            }
        }
        _ => Response::error(),
    }
}

/// What `execute_command` does for each non-storage command.
pub open spec fn exec_cmd_post(
    cmd: Command,
    pre: Storage,
    post: Storage,
    now: u64,
    out: Seq<u8>,
) -> bool {
    match cmd {
        Command::Get { keys } => exists|items: Seq<(Vec<u8>, CacheItem)>|
            {
                &&& #[trigger] Storage::get_multi_post(pre, post, keys.deep_view(), now, items)
                &&& out == values_bytes(items, false) + end_line()
            },
        Command::Gets { keys } => exists|items: Seq<(Vec<u8>, CacheItem)>|
            {
                &&& #[trigger] Storage::get_multi_post(pre, post, keys.deep_view(), now, items)
                &&& out == values_bytes(items, true) + end_line()
            },
        Command::Delete { key, noreply } => {
            let r = if pre.has_key(key@) { StorageResult::Deleted } else { StorageResult::NotFound };
            &&& Storage::delete_post(pre, post, key@, r)
            &&& out == if noreply {
                Seq::<u8>::empty()
            } else if r == StorageResult::Deleted {
                deleted_line()
            } else {
                not_found_line()
            }
        },
        Command::Incr { key, value, noreply } => exists|res: Seq<u8>|
            {
                &&& #[trigger] incr_decr_post(pre, post, key@, value, true, now, res)
                &&& out == if noreply { Seq::<u8>::empty() } else { res }
            },
        Command::Decr { key, value, noreply } => exists|res: Seq<u8>|
            {
                &&& #[trigger] incr_decr_post(pre, post, key@, value, false, now, res)
                &&& out == if noreply { Seq::<u8>::empty() } else { res }
            },
        Command::FlushAll { noreply, .. } => {
            &&& post.entries@.len() == 0
            &&& post.memory_used == 0
            &&& post.max_memory == pre.max_memory
            &&& post.default_ttl == pre.default_ttl
            &&& post.cas_counter == pre.cas_counter
            &&& post.access_counter == pre.access_counter
            &&& out == if noreply { Seq::<u8>::empty() } else { ok_line() }
        },
        Command::Stats => {
            &&& post == pre
            &&& out == stats_bytes(pre)
        },
        Command::Version => {
            &&& post == pre
            &&& out == version_line()
        },
        Command::Quit => {
            &&& post == pre
            &&& out.len() == 0
        },
        _ => {
            &&& post == pre
            &&& out == error_line()
        },
    }
}

/// Machine bounds a non-storage command needs.
pub open spec fn cmd_bounds(cmd: Command, pre: Storage) -> bool {
    &&& pre.wf()
    &&& match cmd {
        Command::Get { keys } => pre.access_counter + keys@.len() <= u64::MAX,
        Command::Gets { keys } => pre.access_counter + keys@.len() <= u64::MAX,
        Command::Incr { key, .. } => {
            &&& pre.cas_counter < u64::MAX
            &&& pre.access_counter < u64::MAX - 1
            &&& ITEM_OVERHEAD + key@.len() + 20 <= usize::MAX
        },
        Command::Decr { key, .. } => {
            &&& pre.cas_counter < u64::MAX
            &&& pre.access_counter < u64::MAX - 1
            &&& ITEM_OVERHEAD + key@.len() + 20 <= usize::MAX
        },
        _ => true,
    }
}

/// Execute a non-storage command.
pub fn execute_command(command: &Command, storage: &mut Storage, now: u64) -> (out: Vec<u8>)
    requires
        cmd_bounds(*command, *old(storage)),
    ensures
        final(storage).wf(),
        exec_cmd_post(*command, *old(storage), *final(storage), now, out@),
{
    match command {
        Command::Get { keys } => {
            let items = storage.get_multi_at(keys.as_slice(), now);
            proof {
                assert(keys@.map_values(|k: Vec<u8>| k@) =~~= keys.deep_view());
                assert(Storage::get_multi_post(
                    *old(storage), *storage, keys.deep_view(), now, items@,
                ));
            }
            values_response(&items, false)
        }
        Command::Gets { keys } => {
            let items = storage.get_multi_at(keys.as_slice(), now);
            proof {
                assert(keys@.map_values(|k: Vec<u8>| k@) =~~= keys.deep_view());
                assert(Storage::get_multi_post(
                    *old(storage), *storage, keys.deep_view(), now, items@,
                ));
            }
            values_response(&items, true)
        }
        Command::Delete { key, noreply } => {
            proof {
                crate::storage::lemma_find_idx(old(storage).entries@, key@);
            }
            let r = storage.delete(key.as_slice());
            if *noreply {
                Vec::new()
            } else {
                match r {
                    StorageResult::Deleted => Response::deleted(),
                    _ => Response::not_found(),
                }
            }
        }
        Command::Incr { key, value, noreply } => {
            let res = handle_incr_decr(storage, key.as_slice(), *value, true, now);
            if *noreply {
                Vec::new()
            } else {
                res
            }
        }
        Command::Decr { key, value, noreply } => {
            let res = handle_incr_decr(storage, key.as_slice(), *value, false, now);
            if *noreply {
                Vec::new()
            } else {
                res
            }
        }
        Command::FlushAll { noreply, .. } => {
            storage.flush_all();
            if *noreply {
                Vec::new()
            } else {
                Response::ok()
            }
        }
        Command::Stats => {
            let st = storage.stats();
            let mut out: Vec<u8> = Vec::new();
            let curr = CURR_ITEMS_B;
            let bts = BYTES_B;
            let lim = LIMIT_B;
            let c = crate::num::format_u64(st.item_count as u64);
            let line1 = Response::stat(curr.as_slice(), c.as_slice());
            out.extend_from_slice(line1.as_slice());
            let m = crate::num::format_u64(st.memory_used as u64);
            let line2 = Response::stat(bts.as_slice(), m.as_slice());
            out.extend_from_slice(line2.as_slice());
            let x = crate::num::format_u64(st.max_memory as u64);
            let line3 = Response::stat(lim.as_slice(), x.as_slice());
            out.extend_from_slice(line3.as_slice());
            let e = Response::end();
            out.extend_from_slice(e.as_slice());
            proof {
                assert(curr@ =~= stat_curr_items());
                assert(bts@ =~= stat_bytes_name());
                assert(lim@ =~= stat_limit());
                assert(out@ =~= stats_bytes(*old(storage)));
            }
            out
        }
        Command::Version => Response::version(),
        Command::Quit => Vec::new(),
        _ => Response::error(),
    }
}

/// Assemble the `VALUE` lines and the `END` terminator for a multi-get.
fn values_response(items: &Vec<(Vec<u8>, CacheItem)>, with_cas: bool) -> (out: Vec<u8>)
    ensures
        out@ == values_bytes(items@, with_cas) + end_line(),
{
    let mut out: Vec<u8> = Vec::new();
    let n = items.len();
    for i in 0..n
        invariant
            n == items@.len(),
            out@ == values_bytes(items@.take(i as int), with_cas),
    {
        let pair = &items[i];
        let cas = if with_cas { Some(pair.1.cas_unique) } else { None };
        let line = Response::value(
            pair.0.as_slice(), pair.1.flags, pair.1.value.as_slice(), cas,
        );
        out.extend_from_slice(line.as_slice());
        proof {
            assert(items@.take(i + 1).drop_last() =~= items@.take(i as int));
            assert(items@.take(i + 1) =~= items@.take(i as int).push(items@[i as int]));
            lemma_values_bytes_push(items@.take(i as int), items@[i as int], with_cas);
        }
    }
    proof {
        assert(items@.take(n as int) =~= items@);
    }
    let e = Response::end();
    out.extend_from_slice(e.as_slice());
    out
}

/// The oversized-value message as bytes.
const TOO_LARGE_B: [u8; 15] = [118u8, 97u8, 108u8, 117u8, 101u8, 32u8, 116u8, 111u8, 111u8, 32u8, 108u8, 97u8, 114u8, 103u8, 101u8];

/// How many bytes of `resp` a bounded output buffer takes.
pub open spec fn copy_len(resp: Seq<u8>, out_len: nat) -> int {
    if resp.len() <= out_len {
        resp.len() as int
    } else {
        out_len as int
    }
}

/// The output buffer after a truncating copy of `resp`.
pub open spec fn copied_out(resp: Seq<u8>, out0: Seq<u8>) -> Seq<u8> {
    resp.take(copy_len(resp, out0.len())) + out0.skip(copy_len(resp, out0.len()))
}

/// Message of the client error for an oversized value.
pub open spec fn too_large_msg() -> Seq<u8> {
    seq![118u8, 97u8, 108u8, 117u8, 101u8, 32u8, 116u8, 111u8, 111u8, 32u8, 108u8, 97u8, 114u8, 103u8, 101u8]
}


/// The dispatcher's step for a command completed by the two-phase parse.
pub open spec fn mc_data_case(
    c2: Command,
    consumed2: usize,
    data: Seq<u8>,
    pre: Storage,
    post: Storage,
    out0: Seq<u8>,
    out1: Seq<u8>,
    now: u64,
    r: ProcessResult,
) -> bool {
    exists|resp: Seq<u8>|
        {
            &&& #[trigger] exec_storage_post(c2, pre, post, data, now, resp)
            &&& r == (ProcessResult::Response {
                consumed: consumed2,
                response_len: copy_len(resp, out0.len()) as usize,
            })
            &&& out1 == copied_out(resp, out0)
        }
}

/// The dispatcher's step for a command completed by the header parse.
pub open spec fn mc_complete_case(
    cmd: Command,
    consumed: usize,
    pre: Storage,
    post: Storage,
    out0: Seq<u8>,
    out1: Seq<u8>,
    now: u64,
    r: ProcessResult,
) -> bool {
    match cmd {
        Command::Quit => {
            &&& r is Quit
            &&& post == pre
            &&& out1 == out0
        },
        Command::Get { .. } | Command::Gets { .. } => exists|resp: Seq<u8>|
            {
                &&& #[trigger] exec_cmd_post(cmd, pre, post, now, resp)
                &&& if resp.len() > out0.len() {
                    match r {
                        ProcessResult::LargeResponse { consumed: c, response_data } => {
                            &&& c == consumed
                            &&& response_data@ == resp
                            &&& out1 == out0
                        },
                        _ => false,
                    }
                } else {
                    &&& r == (ProcessResult::Response {
                        consumed,
                        response_len: copy_len(resp, out0.len()) as usize,
                    })
                    &&& out1 == copied_out(resp, out0)
                }
            },
        _ => exists|resp: Seq<u8>|
            {
                &&& #[trigger] exec_cmd_post(cmd, pre, post, now, resp)
                &&& r == (ProcessResult::Response {
                    consumed,
                    response_len: copy_len(resp, out0.len()) as usize,
                })
                &&& out1 == copied_out(resp, out0)
            },
    }
}

/// What `process_memcached_at` does: parse one command off the input,
/// execute it against the store at instant `now`, and leave its response in
/// the output buffer — or report what the event loop must do first.
pub open spec fn mc_post(
    input: Seq<u8>,
    pre: Storage,
    post: Storage,
    out0: Seq<u8>,
    out1: Seq<u8>,
    max_value_size: usize,
    now: u64,
    r: ProcessResult,
) -> bool {
    exists|pr: ParseResult|
        {
            &&& #[trigger] parse_post(input, pr)
            &&& match pr {
                ParseResult::Error(ParseError::Incomplete) => {
                    &&& r is NeedData
                    &&& post == pre
                    &&& out1 == out0
                },
                ParseResult::Error(_) => {
                    &&& r is Error
                    &&& post == pre
                    &&& out1 == out0
                },
                ParseResult::NeedData { command_bytes, data_bytes } => {
                    if data_bytes > max_value_size {
                        let resp = client_error_prefix() + too_large_msg() + seq![13u8, 10u8];
                        &&& r == (ProcessResult::Response {
                            consumed: (command_bytes + 2) as usize,
                            response_len: copy_len(resp, out0.len()) as usize,
                        })
                        &&& post == pre
                        &&& out1 == copied_out(resp, out0)
                    } else if input.len() >= command_bytes + data_bytes + 2 {
                        exists|pr2: ParseResult|
                            {
                                &&& #[trigger] parse_with_data_post(input, pr2)
                                &&& match pr2 {
                                    ParseResult::Complete(c2, consumed2) => mc_data_case(
                                        c2, consumed2,
                                        input.subrange(
                                            command_bytes as int,
                                            command_bytes + data_bytes,
                                        ),
                                        pre, post, out0, out1, now, r,
                                    ),
                                    _ => {
                                        &&& r is NeedData
                                        &&& post == pre
                                        &&& out1 == out0
                                    },
                                }
                            }
                    } else if data_bytes > out0.len() {
                        &&& r == (ProcessResult::NeedChain {
                            command_len: command_bytes,
                            value_len: data_bytes,
                        })
                        &&& post == pre
                        &&& out1 == out0
                    } else {
                        &&& r is NeedData
                        &&& post == pre
                        &&& out1 == out0
                    }
                },
                ParseResult::Complete(cmd, consumed) => mc_complete_case(
                    cmd, consumed, pre, post, out0, out1, now, r,
                ),
            }
        }
}

/// Machine bounds `process_memcached_at` needs: the store is well formed,
/// the counters have room, and the buffer and value sizes cannot overflow
/// the address space.
pub open spec fn mc_bounds(input: Seq<u8>, storage: Storage, max_value_size: usize) -> bool {
    &&& storage.wf()
    &&& storage.cas_counter < u64::MAX
    &&& storage.access_counter + input.len() + 2 <= u64::MAX
    &&& ITEM_OVERHEAD + 270 + input.len() <= usize::MAX
    &&& storage.memory_used + input.len() <= usize::MAX
    &&& input.len() + max_value_size + 2 <= usize::MAX
}

/// Process one memcached-protocol buffer at instant `now`.
pub fn process_memcached_at(
    input: &[u8],
    output: &mut [u8],
    storage: &mut Storage,
    max_value_size: usize,
    now: u64,
) -> (r: ProcessResult)
    requires
        mc_bounds(input@, *old(storage), max_value_size),
    ensures
        final(storage).wf(),
        final(output)@.len() == old(output)@.len(),
        mc_post(
            input@, *old(storage), *final(storage), old(output)@, final(output)@,
            max_value_size, now, r,
        ),
{
    let parsed = Parser::parse(input);
    let ghost pr = parsed;
    match parsed {
        ParseResult::Complete(command, consumed) => {
            match &command {
                Command::Quit => ProcessResult::Quit,
                Command::SetCmd { .. } | Command::Add { .. } | Command::Replace { .. }
                | Command::Append { .. } | Command::Prepend { .. } | Command::Cas { .. } => {
                    proof {
                        assert(false);
                    }
                    ProcessResult::Error
                }
                Command::Get { .. } | Command::Gets { .. } => {
                    proof {
                        lemma_complete_cmd_bounds(input@, command, consumed, *old(storage));
                    }
                    let resp = execute_command(&command, storage, now);
                    if resp.len() > output.len() {
                        proof {
                            assert(exec_cmd_post(command, *old(storage), *storage, now, resp@));
                        }
                        ProcessResult::LargeResponse { consumed, response_data: resp }
                    } else {
                        let len = copy_response(resp.as_slice(), output);
                        proof {
                            assert(exec_cmd_post(command, *old(storage), *storage, now, resp@));
                        }
                        ProcessResult::Response { consumed, response_len: len }
                    }
                }
                _ => {
                    proof {
                        lemma_complete_cmd_bounds(input@, command, consumed, *old(storage));
                    }
                    let resp = execute_command(&command, storage, now);
                    let len = copy_response(resp.as_slice(), output);
                    proof {
                        assert(exec_cmd_post(command, *old(storage), *storage, now, resp@));
                    }
                    ProcessResult::Response { consumed, response_len: len }
                }
            }
        }
        ParseResult::NeedData { command_bytes, data_bytes } => {
            proof {
                crate::wire::lemma_spec_find_crlf(input@);
                assert(command_bytes == spec_find_crlf(input@) + 2);
                assert(command_bytes <= input@.len());
            }
            if data_bytes > max_value_size {
                let msg = TOO_LARGE_B;
                let resp = Response::client_error(msg.as_slice());
                proof {
                    assert(msg@ =~= too_large_msg());
                }
                let len = copy_response(resp.as_slice(), output);
                return ProcessResult::Response {
                    consumed: command_bytes + 2,
                    response_len: len,
                };
            }
            let n = input.len();
            if n >= command_bytes && n - command_bytes >= data_bytes
                && n - command_bytes - data_bytes >= 2 {
                let reparsed = Parser::parse_with_data(input);
                let ghost pr2 = reparsed;
                match reparsed {
                    ParseResult::Complete(command, consumed2) => {
                        let data = vstd::slice::slice_subrange(
                            input, command_bytes, command_bytes + data_bytes,
                        );
                        proof {
                            lemma_with_data_cmd_bounds(
                                input@, command, consumed2, data@, *old(storage),
                            );
                        }
                        let resp = execute_storage_command(&command, storage, data, now);
                        let len = copy_response(resp.as_slice(), output);
                        proof {
                            assert(exec_storage_post(
                                command, *old(storage), *storage, data@, now, resp@,
                            ));
                            assert(parse_with_data_post(input@, pr2));
                        }
                        ProcessResult::Response { consumed: consumed2, response_len: len }
                    }
                    _ => {
                        proof {
                            assert(parse_with_data_post(input@, reparsed));
                        }
                        ProcessResult::NeedData
                    }
                }
            } else if data_bytes > output.len() {
                ProcessResult::NeedChain { command_len: command_bytes, value_len: data_bytes }
            } else {
                ProcessResult::NeedData
            }
        }
        ParseResult::Error(ParseError::Incomplete) => ProcessResult::NeedData,
        ParseResult::Error(_) => ProcessResult::Error,
    }
}

/// A command completed by the header parse satisfies the bounds of
/// `execute_command`.
proof fn lemma_complete_cmd_bounds(input: Seq<u8>, cmd: Command, consumed: usize, pre: Storage)
    requires
        parse_post(input, ParseResult::Complete(cmd, consumed)),
        pre.wf(),
        pre.cas_counter < u64::MAX,
        pre.access_counter + input.len() + 2 <= u64::MAX,
        ITEM_OVERHEAD + 270 + input.len() <= usize::MAX,
    ensures
        cmd_bounds(cmd, pre),
{
    let e = spec_find_crlf(input);
    let line = input.take(e);
    let toks = spec_tokens(line);
    crate::wire::lemma_spec_find_crlf(input);
    crate::protocol::lemma_tokens_len(line);
    match cmd {
        Command::Get { keys } => {
            assert(keys.deep_view() == toks.skip(1));
            assert(keys@.len() == keys.deep_view().len());
        }
        Command::Gets { keys } => {
            assert(keys.deep_view() == toks.skip(1));
            assert(keys@.len() == keys.deep_view().len());
        }
        Command::Incr { key, .. } => {
            assert(key@.len() <= 250);
        }
        Command::Decr { key, .. } => {
            assert(key@.len() <= 250);
        }
        _ => {}
    }
}

/// A command completed by the two-phase parse satisfies the bounds of
/// `execute_storage_command`.
proof fn lemma_with_data_cmd_bounds(
    input: Seq<u8>,
    cmd: Command,
    consumed: usize,
    data: Seq<u8>,
    pre: Storage,
)
    requires
        parse_with_data_post(input, ParseResult::Complete(cmd, consumed)),
        data.len() <= input.len(),
        pre.wf(),
        pre.cas_counter < u64::MAX,
        pre.access_counter + input.len() + 2 <= u64::MAX,
        ITEM_OVERHEAD + 270 + input.len() <= usize::MAX,
        pre.memory_used + input.len() <= usize::MAX,
    ensures
        storage_cmd_bounds(cmd, pre, data),
{
    match cmd {
        Command::SetCmd { key, .. } => {
            assert(key@.len() <= 250);
        }
        Command::Add { key, .. } => {
            assert(key@.len() <= 250);
        }
        Command::Replace { key, .. } => {
            assert(key@.len() <= 250);
        }
        Command::Cas { key, .. } => {
            assert(key@.len() <= 250);
        }
        _ => {}
    }
}

/// Process one memcached-protocol buffer, judging time by the system clock.
pub fn process_memcached(
    input: &[u8],
    output: &mut [u8],
    storage: &mut Storage,
    max_value_size: usize,
) -> (r: ProcessResult)
    requires
        mc_bounds(input@, *old(storage), max_value_size),
    ensures
        final(storage).wf(),
        final(output)@.len() == old(output)@.len(),
        exists|now: u64| mc_post(
            input@, *old(storage), *final(storage), old(output)@, final(output)@,
            max_value_size, now, r,
        ),
{
    let now = crate::storage::clock_seconds();
    process_memcached_at(input, output, storage, max_value_size, now)
}

/// The invalid-length message as bytes.
const INVALID_LEN_B: [u8; 14] = [105u8, 110u8, 118u8, 97u8, 108u8, 105u8, 100u8, 32u8, 108u8, 101u8, 110u8, 103u8, 116u8, 104u8];
/// The oversized-value message for the echo protocol as bytes.
const TOO_LARGE2_B: [u8; 15] = [118u8, 97u8, 108u8, 117u8, 101u8, 32u8, 116u8, 111u8, 111u8, 32u8, 108u8, 97u8, 114u8, 103u8, 101u8];

/// What `process_ping` does: `PING` answers `PONG`, `PING <msg>` echoes,
/// `QUIT` quits, anything else is an error line; the store is untouched.
pub open spec fn ping_post(
    input: Seq<u8>,
    out0: Seq<u8>,
    out1: Seq<u8>,
    r: ProcessResult,
) -> bool {
    let e = spec_find_crlf(input);
    let line = input.take(e);
    if e == -1 {
        &&& r is NeedData
        &&& out1 == out0
    } else if eq_nocase(line, crate::ping::kw_ping()) {
        &&& r == (ProcessResult::Response {
            consumed: (e + 2) as usize,
            response_len: copy_len(crate::ping::pong_line(), out0.len()) as usize,
        })
        &&& out1 == copied_out(crate::ping::pong_line(), out0)
    } else if eq_nocase(line, crate::ping::kw_quit()) {
        &&& r is Quit
        &&& out1 == out0
    } else if line.len() > 5 && eq_nocase(line.take(5), crate::ping::kw_ping_sp()) {
        let resp = crate::ping::pong_sp() + line.skip(5) + seq![13u8, 10u8];
        if resp.len() > out0.len() {
            &&& r is Error
            &&& out1 == out0
        } else {
            &&& r == (ProcessResult::Response {
                consumed: (e + 2) as usize,
                response_len: resp.len() as usize,
            })
            &&& out1 == copied_out(resp, out0)
        }
    } else {
        &&& r == (ProcessResult::Response {
            consumed: (e + 2) as usize,
            response_len: copy_len(crate::ping::error_line(), out0.len()) as usize,
        })
        &&& out1 == copied_out(crate::ping::error_line(), out0)
    }
}

/// Process one ping-protocol buffer. The store is never touched.
pub fn process_ping(input: &[u8], output: &mut [u8], storage: &mut Storage) -> (r: ProcessResult)
    ensures
        *final(storage) == *old(storage),
        final(output)@.len() == old(output)@.len(),
        ping_post(input@, old(output)@, final(output)@, r),
{
    let n = input.len();
    let parsed = crate::ping::parse(input);
    match parsed {
        crate::ping::ParseResult::Incomplete => ProcessResult::NeedData,
        crate::ping::ParseResult::Complete(cmd, consumed) => {
            match cmd {
                crate::ping::Command::Ping => {
                    let resp = crate::ping::response_pong();
                    let len = copy_response(resp.as_slice(), output);
                    ProcessResult::Response { consumed, response_len: len }
                }
                crate::ping::Command::Quit => ProcessResult::Quit,
                crate::ping::Command::PingMsg(msg) => {
                    proof {
                        crate::wire::lemma_spec_find_crlf(input@);
                        assert(msg@.len() + 7 <= usize::MAX);
                    }
                    let written = crate::ping::response_pong_msg(msg.as_slice(), output);
                    let ghost e = spec_find_crlf(input@);
                    let ghost resp = crate::ping::pong_sp() + input@.take(e).skip(5)
                        + seq![13u8, 10u8];
                    proof {
                        assert(resp =~= crate::ping::pong_sp() + msg@ + seq![13u8, 10u8]);
                    }
                    if written == 0 {
                        proof {
                            assert(resp.len() > old(output)@.len());
                        }
                        ProcessResult::Error
                    } else {
                        proof {
                            assert(resp.take(resp.len() as int) =~= resp);
                            assert(output@ =~= copied_out(resp, old(output)@));
                        }
                        ProcessResult::Response { consumed, response_len: written }
                    }
                }
            }
        }
        crate::ping::ParseResult::Error => {
            let resp = crate::ping::response_error();
            let len = copy_response(resp.as_slice(), output);
            proof {
                let e = spec_find_crlf(input@);
                assert(e >= 0);
            }
            let line_end = match crate::wire::find_crlf(input) {
                Some(p) => p,
                None => {
                    proof {
                        assert(false);
                    }
                    0
                }
            };
            let n = input.len();
            ProcessResult::Response { consumed: line_end + 2, response_len: len }
        }
    }
}

/// What `process_echo` does: a framed payload echoes back with the same
/// framing; `QUIT` quits; a bad or oversized length answers an error line.
pub open spec fn echo_post(
    input: Seq<u8>,
    out0: Seq<u8>,
    out1: Seq<u8>,
    max_value_size: usize,
    r: ProcessResult,
) -> bool {
    let e = spec_find_crlf(input);
    let line = input.take(e);
    if e == -1 {
        &&& r is NeedData
        &&& out1 == out0
    } else if eq_nocase(line, crate::echo::kw_quit()) {
        &&& r is Quit
        &&& out1 == out0
    } else {
        if spec_parse_u64(line) is None
            || spec_parse_u64(line)->0 > usize::MAX as u64 {
            let resp = crate::echo::error_prefix() + seq![105u8, 110u8, 118u8, 97u8, 108u8, 105u8, 100u8, 32u8, 108u8, 101u8, 110u8, 103u8, 116u8, 104u8] + seq![13u8, 10u8];
            &&& r == (ProcessResult::Response {
                consumed: (e + 2) as usize,
                response_len: copy_len(resp, out0.len()) as usize,
            })
            &&& out1 == copied_out(resp, out0)
        } else {
            let len64 = spec_parse_u64(line)->0;
            {
                if len64 > max_value_size as u64 {
                    let resp = crate::echo::error_prefix() + seq![118u8, 97u8, 108u8, 117u8, 101u8, 32u8, 116u8, 111u8, 111u8, 32u8, 108u8, 97u8, 114u8, 103u8, 101u8] + seq![13u8, 10u8];
                    &&& r == (ProcessResult::Response {
                        consumed: (e + 2) as usize,
                        response_len: copy_len(resp, out0.len()) as usize,
                    })
                    &&& out1 == copied_out(resp, out0)
                } else {
                    let length = len64 as int;
                    let header_len = e + 2;
                    if input.len() < header_len + length {
                        if length > out0.len() {
                            &&& r == (ProcessResult::NeedChain {
                                command_len: header_len as usize,
                                value_len: len64 as usize,
                            })
                            &&& out1 == out0
                        } else {
                            &&& r is NeedData
                            &&& out1 == out0
                        }
                    } else {
                        let resp = dec_digits(len64 as nat) + seq![13u8, 10u8]
                            + input.subrange(header_len, header_len + length);
                        if resp.len() > out0.len() {
                            match r {
                                ProcessResult::LargeResponse { consumed, response_data } => {
                                    &&& consumed == header_len + length
                                    &&& response_data@ == resp
                                    &&& out1 == out0
                                },
                                _ => false,
                            }
                        } else {
                            &&& r == (ProcessResult::Response {
                                consumed: (header_len + length) as usize,
                                response_len: resp.len() as usize,
                            })
                            &&& out1 == copied_out(resp, out0)
                        }
                    }
                }
            }
        }
    }
}

/// Process one echo-protocol buffer. The store is never touched.
pub fn process_echo(
    input: &[u8],
    output: &mut [u8],
    storage: &mut Storage,
    max_value_size: usize,
) -> (r: ProcessResult)
    requires
        input@.len() + max_value_size + 22 <= usize::MAX,
    ensures
        *final(storage) == *old(storage),
        final(output)@.len() == old(output)@.len(),
        echo_post(input@, old(output)@, final(output)@, max_value_size, r),
{
    let n = input.len();
    let parsed = crate::echo::parse(input);
    match parsed {
        crate::echo::ParseResult::Incomplete => ProcessResult::NeedData,
        crate::echo::ParseResult::Complete(crate::echo::Command::Quit) => ProcessResult::Quit,
        crate::echo::ParseResult::Complete(crate::echo::Command::Echo { length, header_len }) => {
            if length as u64 > max_value_size as u64 {
                let msg = TOO_LARGE2_B;
                let resp = crate::echo::response_error(msg.as_slice());
                proof {
                    assert(msg@ =~= seq![118u8, 97u8, 108u8, 117u8, 101u8, 32u8, 116u8, 111u8, 111u8, 32u8, 108u8, 97u8, 114u8, 103u8, 101u8]);
                }
                let len = copy_response(resp.as_slice(), output);
                let line_end = header_len - 2;
                return ProcessResult::Response {
                    consumed: header_len,
                    response_len: len,
                };
            }
            if n < header_len || n - header_len < length {
                if length > output.len() {
                    ProcessResult::NeedChain { command_len: header_len, value_len: length }
                } else {
                    ProcessResult::NeedData
                }
            } else {
                let mut resp = crate::num::format_u64(length as u64);
                resp.push(13u8);
                resp.push(10u8);
                let data = vstd::slice::slice_subrange(input, header_len, header_len + length);
                resp.extend_from_slice(data);
                proof {
                    assert(resp@ =~= dec_digits(length as nat) + seq![13u8, 10u8]
                        + input@.subrange(header_len as int, header_len + length));
                }
                if resp.len() > output.len() {
                    ProcessResult::LargeResponse {
                        consumed: header_len + length,
                        response_data: resp,
                    }
                } else {
                    let len = copy_response(resp.as_slice(), output);
                    ProcessResult::Response {
                        consumed: header_len + length,
                        response_len: len,
                    }
                }
            }
        }
        crate::echo::ParseResult::InvalidLength => {
            let msg = INVALID_LEN_B;
            let resp = crate::echo::response_error(msg.as_slice());
            proof {
                assert(msg@ =~= seq![105u8, 110u8, 118u8, 97u8, 108u8, 105u8, 100u8, 32u8, 108u8, 101u8, 110u8, 103u8, 116u8, 104u8]);
                crate::wire::lemma_spec_find_crlf(input@);
            }
            let len = copy_response(resp.as_slice(), output);
            let line_end = match crate::wire::find_crlf(input) {
                Some(p) => p,
                None => {
                    proof {
                        assert(false);
                    }
                    0
                }
            };
            ProcessResult::Response { consumed: line_end + 2, response_len: len }
        }
    }
}

/// An unsigned 64-bit value read from a bulk numeral or an integer frame
/// (an integer is reinterpreted two's-complement, as a cast would).
pub open spec fn frame_u64(f: FrameModel) -> Option<u64> {
    match f {
        FrameModel::Bulk(Some(d)) => spec_parse_u64(d),
        FrameModel::Integer(n) => if n >= 0 {
            Some(n as u64)
        } else {
            Some((n + 0x1_0000_0000_0000_0000) as u64)
        },
        _ => None,
    }
}

/// The seconds a `PX` milliseconds argument rounds up to.
pub open spec fn px_seconds(millis: u64) -> u64 {
    ((((millis + 999) % 0x1_0000_0000_0000_0000) as u64) / 1000) as u64
}

/// The accumulated `SET` options after reading `args[i..]`: the TTL in
/// seconds and the `NX`/`XX` flags, or `None` on a syntax error.
pub open spec fn spec_set_opts(
    args: Seq<FrameModel>,
    i: int,
    ex: Option<u64>,
    nx: bool,
    xx: bool,
) -> Option<(Option<u64>, bool, bool)>
    decreases args.len() - i,
{
    if i >= args.len() || i < 0 {
        Some((ex, nx, xx))
    } else {
        match args[i] {
            FrameModel::Bulk(Some(o)) => {
                if eq_nocase(o, seq![69u8, 88u8]) {
                    if i + 1 >= args.len() {
                        None
                    } else {
                        match frame_u64(args[i + 1]) {
                            Some(secs) => spec_set_opts(args, i + 2, Some(secs), nx, xx),
                            None => None,
                        }
                    }
                } else if eq_nocase(o, seq![80u8, 88u8]) {
                    if i + 1 >= args.len() {
                        None
                    } else {
                        match frame_u64(args[i + 1]) {
                            Some(ms) => spec_set_opts(args, i + 2, Some(px_seconds(ms)), nx, xx),
                            None => None,
                        }
                    }
                } else if eq_nocase(o, seq![78u8, 88u8]) {
                    spec_set_opts(args, i + 1, ex, true, xx)
                } else if eq_nocase(o, seq![88u8, 88u8]) {
                    spec_set_opts(args, i + 1, ex, nx, true)
                } else {
                    None
                }
            },
            _ => None,
        }
    }
}

/// The upper-cased bytes of `s`.
pub open spec fn upper_seq(s: Seq<u8>) -> Seq<u8> {
    s.map_values(|b: u8| if 97 <= b <= 122 { (b - 32) as u8 } else { b })
}

/// Upper-case a byte string.
pub fn upper_bytes(s: &[u8]) -> (r: Vec<u8>)
    ensures
        r@ == upper_seq(s@),
{
    let n = s.len();
    let mut out: Vec<u8> = Vec::with_capacity(n);
    for i in 0..n
        invariant
            n == s@.len(),
            out@.len() == i,
            forall|j: int| 0 <= j < i ==>
                out@[j] == (if 97 <= s@[j] <= 122 { (s@[j] - 32) as u8 } else { s@[j] }),
    {
        let b = s[i];
        out.push(if 97 <= b && b <= 122 { b - 32 } else { b });
    }
    proof {
        assert(out@ =~= upper_seq(s@));
    }
    out
}

/// The reply of a `HELLO` command at protocol version `ver`.
pub open spec fn hello_reply(ver: u64) -> FrameModel {
    let v: i64 = if ver < 2 { 2 } else if ver > 3 { 3 } else { ver as i64 };
    FrameModel::Array(Some(seq![
        FrameModel::Bulk(Some(seq![115u8, 101u8, 114u8, 118u8, 101u8, 114u8])),
        FrameModel::Bulk(Some(seq![103u8, 114u8, 111u8, 119u8, 45u8, 97u8, 45u8, 99u8, 97u8, 99u8, 104u8, 101u8])),
        FrameModel::Bulk(Some(seq![118u8, 101u8, 114u8, 115u8, 105u8, 111u8, 110u8])),
        FrameModel::Bulk(Some(seq![48u8, 46u8, 49u8, 46u8, 48u8])),
        FrameModel::Bulk(Some(seq![112u8, 114u8, 111u8, 116u8, 111u8])),
        FrameModel::Integer(v),
    ]))
}

/// What executing one RESP command frame does: the reply frame and the
/// store transition for each command of the implemented set.
pub open spec fn resp_exec_post(
    f: FrameModel,
    pre: Storage,
    post: Storage,
    now: u64,
    reply: FrameModel,
) -> bool {
    match f {
        FrameModel::Array(Some(args)) => {
            if args.len() == 0 {
                &&& post == pre
                &&& reply == FrameModel::Error(seq![69u8, 82u8, 82u8, 32u8, 101u8, 109u8, 112u8, 116u8, 121u8, 32u8, 99u8, 111u8, 109u8, 109u8, 97u8, 110u8, 100u8])
            } else {
                match args[0] {
                    FrameModel::Bulk(Some(name)) => {
                        let cmd = upper_seq(name);
                        if cmd == seq![80u8, 73u8, 78u8, 71u8] {
                            &&& post == pre
                            &&& reply == (if args.len() > 1 {
                                match args[1] {
                                    FrameModel::Bulk(Some(m)) => FrameModel::Bulk(Some(m)),
                                    _ => FrameModel::Simple(seq![80u8, 79u8, 78u8, 71u8]),
                                }
                            } else {
                                FrameModel::Simple(seq![80u8, 79u8, 78u8, 71u8])
                            })
                        } else if cmd == seq![71u8, 69u8, 84u8] {
                            if args.len() != 2 {
                                &&& post == pre
                                &&& reply == FrameModel::Error(seq![69u8, 82u8, 82u8, 32u8, 119u8, 114u8, 111u8, 110u8, 103u8, 32u8, 110u8, 117u8, 109u8, 98u8, 101u8, 114u8, 32u8, 111u8, 102u8, 32u8, 97u8, 114u8, 103u8, 117u8, 109u8, 101u8, 110u8, 116u8, 115u8, 32u8, 102u8, 111u8, 114u8, 32u8, 39u8, 103u8, 101u8, 116u8, 39u8, 32u8, 99u8, 111u8, 109u8, 109u8, 97u8, 110u8, 100u8])
                            } else {
                                match args[1] {
                                    FrameModel::Bulk(Some(key)) => exists|h: Option<CacheItem>|
                                        {
                                            &&& #[trigger] Storage::get_post(pre, post, key, now, h)
                                            &&& reply == (match h {
                                                Some(it) => FrameModel::Bulk(Some(it.value@)),
                                                None => FrameModel::Bulk(None),
                                            })
                                        },
                                    _ => {
                                        &&& post == pre
                                        &&& reply == FrameModel::Error(seq![69u8, 82u8, 82u8, 32u8, 105u8, 110u8, 118u8, 97u8, 108u8, 105u8, 100u8, 32u8, 107u8, 101u8, 121u8])
                                    },
                                }
                            }
                        } else if cmd == seq![83u8, 69u8, 84u8] {
                            resp_set_post(args, pre, post, now, reply)
                        } else if cmd == seq![68u8, 69u8, 76u8] {
                            resp_count_post(args, pre, post, now, reply, true)
                        } else if cmd == seq![69u8, 88u8, 73u8, 83u8, 84u8, 83u8] {
                            resp_count_post(args, pre, post, now, reply, false)
                        } else if cmd == seq![70u8, 76u8, 85u8, 83u8, 72u8, 65u8, 76u8, 76u8] || cmd == seq![70u8, 76u8, 85u8, 83u8, 72u8, 68u8, 66u8] {
                            &&& post.entries@.len() == 0
                            &&& post.memory_used == 0
                            &&& post.max_memory == pre.max_memory
                            &&& post.default_ttl == pre.default_ttl
                            &&& post.cas_counter == pre.cas_counter
                            &&& post.access_counter == pre.access_counter
                            &&& reply == FrameModel::Simple(seq![79u8, 75u8])
                        } else if cmd == seq![68u8, 66u8, 83u8, 73u8, 90u8, 69u8] {
                            &&& post == pre
                            &&& reply == FrameModel::Integer(
                                if pre.entries@.len() <= i64::MAX {
                                    pre.entries@.len() as i64
                                } else {
                                    i64::MAX
                                },
                            )
                        } else if cmd == seq![72u8, 69u8, 76u8, 76u8, 79u8] {
                            &&& post == pre
                            &&& if args.len() > 1 {
                                match frame_u64(args[1]) {
                                    Some(v) => reply == hello_reply(v),
                                    None => reply == FrameModel::Error(seq![69u8, 82u8, 82u8, 32u8, 105u8, 110u8, 118u8, 97u8, 108u8, 105u8, 100u8, 32u8, 112u8, 114u8, 111u8, 116u8, 111u8, 99u8, 111u8, 108u8, 32u8, 118u8, 101u8, 114u8, 115u8, 105u8, 111u8, 110u8]),
                                }
                            } else {
                                reply == hello_reply(2)
                            }
                        } else if cmd == seq![67u8, 79u8, 77u8, 77u8, 65u8, 78u8, 68u8] {
                            &&& post == pre
                            &&& reply == FrameModel::Array(Some(Seq::empty()))
                        } else if cmd == seq![81u8, 85u8, 73u8, 84u8] {
                            &&& post == pre
                            &&& reply == FrameModel::Simple(seq![79u8, 75u8])
                        } else {
                            &&& post == pre
                            &&& reply == FrameModel::Error(
                                seq![69u8, 82u8, 82u8, 32u8, 117u8, 110u8, 107u8, 110u8, 111u8, 119u8, 110u8, 32u8, 99u8, 111u8, 109u8, 109u8, 97u8, 110u8, 100u8, 32u8, 39u8] + cmd + seq![39u8],
                            )
                        }
                    },
                    _ => {
                        &&& post == pre
                        &&& reply == FrameModel::Error(seq![69u8, 82u8, 82u8, 32u8, 105u8, 110u8, 118u8, 97u8, 108u8, 105u8, 100u8, 32u8, 99u8, 111u8, 109u8, 109u8, 97u8, 110u8, 100u8])
                    },
                }
            }
        },
        _ => {
            &&& post == pre
            &&& reply == FrameModel::Error(seq![69u8, 82u8, 82u8, 32u8, 105u8, 110u8, 118u8, 97u8, 108u8, 105u8, 100u8, 32u8, 99u8, 111u8, 109u8, 109u8, 97u8, 110u8, 100u8, 32u8, 102u8, 111u8, 114u8, 109u8, 97u8, 116u8])
        },
    }
}

/// What a RESP `SET` does: `NX` stores only when absent, `XX` only when
/// present, `EX`/`PX` set the TTL; `NX` with `XX` is rejected; `NotStored`
/// answers the null bulk string.
pub open spec fn resp_set_post(
    args: Seq<FrameModel>,
    pre: Storage,
    post: Storage,
    now: u64,
    reply: FrameModel,
) -> bool {
    if args.len() < 3 {
        &&& post == pre
        &&& reply == FrameModel::Error(seq![69u8, 82u8, 82u8, 32u8, 119u8, 114u8, 111u8, 110u8, 103u8, 32u8, 110u8, 117u8, 109u8, 98u8, 101u8, 114u8, 32u8, 111u8, 102u8, 32u8, 97u8, 114u8, 103u8, 117u8, 109u8, 101u8, 110u8, 116u8, 115u8, 32u8, 102u8, 111u8, 114u8, 32u8, 39u8, 115u8, 101u8, 116u8, 39u8, 32u8, 99u8, 111u8, 109u8, 109u8, 97u8, 110u8, 100u8])
    } else {
        match (args[1], args[2]) {
            (FrameModel::Bulk(Some(key)), FrameModel::Bulk(Some(value))) => {
                match spec_set_opts(args, 3, None, false, false) {
                    None => {
                        &&& post == pre
                        &&& reply == FrameModel::Error(seq![69u8, 82u8, 82u8, 32u8, 115u8, 121u8, 110u8, 116u8, 97u8, 120u8, 32u8, 101u8, 114u8, 114u8, 111u8, 114u8])
                    },
                    Some((ex, nx, xx)) => {
                        let ttl = match ex {
                            Some(t) => t,
                            None => 0u64,
                        };
                        if nx && xx {
                            &&& post == pre
                            &&& reply == FrameModel::Error(seq![69u8, 82u8, 82u8, 32u8, 88u8, 88u8, 32u8, 97u8, 110u8, 100u8, 32u8, 78u8, 88u8, 32u8, 111u8, 112u8, 116u8, 105u8, 111u8, 110u8, 115u8, 32u8, 97u8, 116u8, 32u8, 116u8, 104u8, 101u8, 32u8, 115u8, 97u8, 109u8, 101u8, 32u8, 116u8, 105u8, 109u8, 101u8, 32u8, 97u8, 114u8, 101u8, 32u8, 110u8, 111u8, 116u8, 32u8, 99u8, 111u8, 109u8, 112u8, 97u8, 116u8, 105u8, 98u8, 108u8, 101u8])
                        } else if nx {
                            let r = if pre.has_live(key, now) {
                                StorageResult::NotStored
                            } else {
                                StorageResult::Stored
                            };
                            &&& Storage::add_post(pre, post, key, value, 0, ttl, now, r)
                            &&& reply == (if r == StorageResult::Stored {
                                FrameModel::Simple(seq![79u8, 75u8])
                            } else {
                                FrameModel::Bulk(None)
                            })
                        } else if xx {
                            let r = if pre.has_live(key, now) {
                                StorageResult::Stored
                            } else {
                                StorageResult::NotStored
                            };
                            &&& Storage::replace_post(pre, post, key, value, 0, ttl, now, r)
                            &&& reply == (if r == StorageResult::Stored {
                                FrameModel::Simple(seq![79u8, 75u8])
                            } else {
                                FrameModel::Bulk(None)
                            })
                        } else {
                            &&& Storage::set_post(
                                pre, post, key, value, 0, ttl, now, StorageResult::Stored,
                            )
                            &&& reply == FrameModel::Simple(seq![79u8, 75u8])
                        }
                    },
                }
            },
            (FrameModel::Bulk(Some(_)), _) => {
                &&& post == pre
                &&& reply == FrameModel::Error(seq![69u8, 82u8, 82u8, 32u8, 105u8, 110u8, 118u8, 97u8, 108u8, 105u8, 100u8, 32u8, 118u8, 97u8, 108u8, 117u8, 101u8])
            },
            _ => {
                &&& post == pre
                &&& reply == FrameModel::Error(seq![69u8, 82u8, 82u8, 32u8, 105u8, 110u8, 118u8, 97u8, 108u8, 105u8, 100u8, 32u8, 107u8, 101u8, 121u8])
            },
        }
    }
}

/// What a RESP `DEL` (`del` true) or `EXISTS` (`del` false) does: walk the
/// key arguments in order, deleting or probing, and answer how many were
/// present.
pub open spec fn resp_count_post(
    args: Seq<FrameModel>,
    pre: Storage,
    post: Storage,
    now: u64,
    reply: FrameModel,
    del: bool,
) -> bool {
    if args.len() < 2 {
        &&& post == pre
        &&& reply == (if del {
            FrameModel::Error(seq![69u8, 82u8, 82u8, 32u8, 119u8, 114u8, 111u8, 110u8, 103u8, 32u8, 110u8, 117u8, 109u8, 98u8, 101u8, 114u8, 32u8, 111u8, 102u8, 32u8, 97u8, 114u8, 103u8, 117u8, 109u8, 101u8, 110u8, 116u8, 115u8, 32u8, 102u8, 111u8, 114u8, 32u8, 39u8, 100u8, 101u8, 108u8, 39u8, 32u8, 99u8, 111u8, 109u8, 109u8, 97u8, 110u8, 100u8])
        } else {
            FrameModel::Error(seq![69u8, 82u8, 82u8, 32u8, 119u8, 114u8, 111u8, 110u8, 103u8, 32u8, 110u8, 117u8, 109u8, 98u8, 101u8, 114u8, 32u8, 111u8, 102u8, 32u8, 97u8, 114u8, 103u8, 117u8, 109u8, 101u8, 110u8, 116u8, 115u8, 32u8, 102u8, 111u8, 114u8, 32u8, 39u8, 101u8, 120u8, 105u8, 115u8, 116u8, 115u8, 39u8, 32u8, 99u8, 111u8, 109u8, 109u8, 97u8, 110u8, 100u8])
        })
    } else {
        exists|count: int|
            {
                &&& #[trigger] resp_count_steps(args, 1, pre, post, now, count, del)
                &&& reply == FrameModel::Integer(
                    if count <= i64::MAX { count as i64 } else { i64::MAX },
                )
                &&& 0 <= count < args.len()
            }
    }
}

/// The walk of `DEL`/`EXISTS` over `args[i..]`, counting hits.
pub open spec fn resp_count_steps(
    args: Seq<FrameModel>,
    i: int,
    pre: Storage,
    post: Storage,
    now: u64,
    count: int,
    del: bool,
) -> bool
    decreases args.len() - i,
{
    if i >= args.len() {
        &&& post == pre
        &&& count == 0
    } else {
        match args[i] {
            FrameModel::Bulk(Some(key)) => {
                if del {
                    exists|mid: Storage, r: StorageResult|
                        {
                            &&& #[trigger] Storage::delete_post(pre, mid, key, r)
                            &&& mid.wf()
                            &&& resp_count_steps(
                                args, i + 1, mid, post, now,
                                count - (if r == StorageResult::Deleted { 1int } else { 0int }),
                                del,
                            )
                        }
                } else {
                    exists|mid: Storage, h: Option<CacheItem>|
                        {
                            &&& #[trigger] Storage::get_post(pre, mid, key, now, h)
                            &&& mid.wf()
                            &&& resp_count_steps(
                                args, i + 1, mid, post, now,
                                count - (if h is Some { 1int } else { 0int }),
                                del,
                            )
                        }
                }
            },
            _ => resp_count_steps(args, i + 1, pre, post, now, count, del),
        }
    }
}

/// Byte constant for the RESP codec.
const RKW_PING_B: [u8; 4] = [80u8, 73u8, 78u8, 71u8];
/// Byte constant for the RESP codec.
const RKW_GET_B: [u8; 3] = [71u8, 69u8, 84u8];
/// Byte constant for the RESP codec.
const RKW_SET_B: [u8; 3] = [83u8, 69u8, 84u8];
/// Byte constant for the RESP codec.
const RKW_DEL_B: [u8; 3] = [68u8, 69u8, 76u8];
/// Byte constant for the RESP codec.
const RKW_EXISTS_B: [u8; 6] = [69u8, 88u8, 73u8, 83u8, 84u8, 83u8];
/// Byte constant for the RESP codec.
const RKW_FLUSHALL_B: [u8; 8] = [70u8, 76u8, 85u8, 83u8, 72u8, 65u8, 76u8, 76u8];
/// Byte constant for the RESP codec.
const RKW_FLUSHDB_B: [u8; 7] = [70u8, 76u8, 85u8, 83u8, 72u8, 68u8, 66u8];
/// Byte constant for the RESP codec.
const RKW_DBSIZE_B: [u8; 6] = [68u8, 66u8, 83u8, 73u8, 90u8, 69u8];
/// Byte constant for the RESP codec.
const RKW_HELLO_B: [u8; 5] = [72u8, 69u8, 76u8, 76u8, 79u8];
/// Byte constant for the RESP codec.
const RKW_COMMAND_B: [u8; 7] = [67u8, 79u8, 77u8, 77u8, 65u8, 78u8, 68u8];
/// Byte constant for the RESP codec.
const RKW_QUIT_B: [u8; 4] = [81u8, 85u8, 73u8, 84u8];
/// Byte constant for the RESP codec.
const RKW_EX_B: [u8; 2] = [69u8, 88u8];
/// Byte constant for the RESP codec.
const RKW_PX_B: [u8; 2] = [80u8, 88u8];
/// Byte constant for the RESP codec.
const RKW_NX_B: [u8; 2] = [78u8, 88u8];
/// Byte constant for the RESP codec.
const RKW_XX_B: [u8; 2] = [88u8, 88u8];
/// Byte constant for the RESP codec.
const PONG_B: [u8; 4] = [80u8, 79u8, 78u8, 71u8];
/// Byte constant for the RESP codec.
const ROK_B: [u8; 2] = [79u8, 75u8];
/// Byte constant for the RESP codec.
const SERVER_B: [u8; 6] = [115u8, 101u8, 114u8, 118u8, 101u8, 114u8];
/// Byte constant for the RESP codec.
const NAME_B: [u8; 12] = [103u8, 114u8, 111u8, 119u8, 45u8, 97u8, 45u8, 99u8, 97u8, 99u8, 104u8, 101u8];
/// Byte constant for the RESP codec.
const VERSION_KW_B: [u8; 7] = [118u8, 101u8, 114u8, 115u8, 105u8, 111u8, 110u8];
/// Byte constant for the RESP codec.
const VERNUM_B: [u8; 5] = [48u8, 46u8, 49u8, 46u8, 48u8];
/// Byte constant for the RESP codec.
const PROTO_B: [u8; 5] = [112u8, 114u8, 111u8, 116u8, 111u8];
/// Byte constant for the RESP codec.
const ERR_EMPTY_B: [u8; 17] = [69u8, 82u8, 82u8, 32u8, 101u8, 109u8, 112u8, 116u8, 121u8, 32u8, 99u8, 111u8, 109u8, 109u8, 97u8, 110u8, 100u8];
/// Byte constant for the RESP codec.
const ERR_FORMAT_B: [u8; 26] = [69u8, 82u8, 82u8, 32u8, 105u8, 110u8, 118u8, 97u8, 108u8, 105u8, 100u8, 32u8, 99u8, 111u8, 109u8, 109u8, 97u8, 110u8, 100u8, 32u8, 102u8, 111u8, 114u8, 109u8, 97u8, 116u8];
/// Byte constant for the RESP codec.
const ERR_CMD_B: [u8; 19] = [69u8, 82u8, 82u8, 32u8, 105u8, 110u8, 118u8, 97u8, 108u8, 105u8, 100u8, 32u8, 99u8, 111u8, 109u8, 109u8, 97u8, 110u8, 100u8];
/// Byte constant for the RESP codec.
const ERR_GET_ARGS_B: [u8; 47] = [69u8, 82u8, 82u8, 32u8, 119u8, 114u8, 111u8, 110u8, 103u8, 32u8, 110u8, 117u8, 109u8, 98u8, 101u8, 114u8, 32u8, 111u8, 102u8, 32u8, 97u8, 114u8, 103u8, 117u8, 109u8, 101u8, 110u8, 116u8, 115u8, 32u8, 102u8, 111u8, 114u8, 32u8, 39u8, 103u8, 101u8, 116u8, 39u8, 32u8, 99u8, 111u8, 109u8, 109u8, 97u8, 110u8, 100u8];
/// Byte constant for the RESP codec.
const ERR_SET_ARGS_B: [u8; 47] = [69u8, 82u8, 82u8, 32u8, 119u8, 114u8, 111u8, 110u8, 103u8, 32u8, 110u8, 117u8, 109u8, 98u8, 101u8, 114u8, 32u8, 111u8, 102u8, 32u8, 97u8, 114u8, 103u8, 117u8, 109u8, 101u8, 110u8, 116u8, 115u8, 32u8, 102u8, 111u8, 114u8, 32u8, 39u8, 115u8, 101u8, 116u8, 39u8, 32u8, 99u8, 111u8, 109u8, 109u8, 97u8, 110u8, 100u8];
/// Byte constant for the RESP codec.
const ERR_DEL_ARGS_B: [u8; 47] = [69u8, 82u8, 82u8, 32u8, 119u8, 114u8, 111u8, 110u8, 103u8, 32u8, 110u8, 117u8, 109u8, 98u8, 101u8, 114u8, 32u8, 111u8, 102u8, 32u8, 97u8, 114u8, 103u8, 117u8, 109u8, 101u8, 110u8, 116u8, 115u8, 32u8, 102u8, 111u8, 114u8, 32u8, 39u8, 100u8, 101u8, 108u8, 39u8, 32u8, 99u8, 111u8, 109u8, 109u8, 97u8, 110u8, 100u8];
/// Byte constant for the RESP codec.
const ERR_EXISTS_ARGS_B: [u8; 50] = [69u8, 82u8, 82u8, 32u8, 119u8, 114u8, 111u8, 110u8, 103u8, 32u8, 110u8, 117u8, 109u8, 98u8, 101u8, 114u8, 32u8, 111u8, 102u8, 32u8, 97u8, 114u8, 103u8, 117u8, 109u8, 101u8, 110u8, 116u8, 115u8, 32u8, 102u8, 111u8, 114u8, 32u8, 39u8, 101u8, 120u8, 105u8, 115u8, 116u8, 115u8, 39u8, 32u8, 99u8, 111u8, 109u8, 109u8, 97u8, 110u8, 100u8];
/// Byte constant for the RESP codec.
const ERR_KEY_B: [u8; 15] = [69u8, 82u8, 82u8, 32u8, 105u8, 110u8, 118u8, 97u8, 108u8, 105u8, 100u8, 32u8, 107u8, 101u8, 121u8];
/// Byte constant for the RESP codec.
const ERR_VALUE_B: [u8; 17] = [69u8, 82u8, 82u8, 32u8, 105u8, 110u8, 118u8, 97u8, 108u8, 105u8, 100u8, 32u8, 118u8, 97u8, 108u8, 117u8, 101u8];
/// Byte constant for the RESP codec.
const ERR_SYNTAX_B: [u8; 16] = [69u8, 82u8, 82u8, 32u8, 115u8, 121u8, 110u8, 116u8, 97u8, 120u8, 32u8, 101u8, 114u8, 114u8, 111u8, 114u8];
/// Byte constant for the RESP codec.
const ERR_NXXX_B: [u8; 57] = [69u8, 82u8, 82u8, 32u8, 88u8, 88u8, 32u8, 97u8, 110u8, 100u8, 32u8, 78u8, 88u8, 32u8, 111u8, 112u8, 116u8, 105u8, 111u8, 110u8, 115u8, 32u8, 97u8, 116u8, 32u8, 116u8, 104u8, 101u8, 32u8, 115u8, 97u8, 109u8, 101u8, 32u8, 116u8, 105u8, 109u8, 101u8, 32u8, 97u8, 114u8, 101u8, 32u8, 110u8, 111u8, 116u8, 32u8, 99u8, 111u8, 109u8, 112u8, 97u8, 116u8, 105u8, 98u8, 108u8, 101u8];
/// Byte constant for the RESP codec.
const ERR_PROTO_B: [u8; 28] = [69u8, 82u8, 82u8, 32u8, 105u8, 110u8, 118u8, 97u8, 108u8, 105u8, 100u8, 32u8, 112u8, 114u8, 111u8, 116u8, 111u8, 99u8, 111u8, 108u8, 32u8, 118u8, 101u8, 114u8, 115u8, 105u8, 111u8, 110u8];
/// Byte constant for the RESP codec.
const ERR_UNKNOWN_B: [u8; 21] = [69u8, 82u8, 82u8, 32u8, 117u8, 110u8, 107u8, 110u8, 111u8, 119u8, 110u8, 32u8, 99u8, 111u8, 109u8, 109u8, 97u8, 110u8, 100u8, 32u8, 39u8];

/// Machine bounds the RESP executor needs for a command frame.
pub open spec fn resp_bounds(f: FrameModel, s: Storage) -> bool {
    &&& s.wf()
    &&& s.cas_counter < u64::MAX
    &&& match f {
        FrameModel::Array(Some(args)) => {
            &&& s.access_counter + args.len() + 1 <= u64::MAX
            &&& (args.len() >= 3 ==> match (args[1], args[2]) {
                (FrameModel::Bulk(Some(k)), FrameModel::Bulk(Some(v))) =>
                    ITEM_OVERHEAD + k.len() + v.len() <= usize::MAX,
                _ => true,
            })
        },
        _ => true,
    }
}

/// Read an unsigned 64-bit value out of a bulk numeral or integer frame.
fn frame_u64_exec(f: &Frame) -> (r: Option<u64>)
    ensures
        r == frame_u64(f.view()),
{
    match f {
        Frame::Bulk(Some(d)) => parse_u64(d.as_slice()),
        Frame::Integer(n) => {
            let v = #[verifier::truncate] (*n as u64);
            proof {
                if *n < 0 {
                    assert(v == (*n + 0x1_0000_0000_0000_0000) as u64) by (bit_vector)
                        requires v == *n as u64, *n < 0;
                }
            }
            Some(v)
        }
        _ => None,
    }
}

/// Walk the keys of a `DEL` or `EXISTS` from `args[i..]`, deleting or
/// probing, and count the hits.
#[verifier::rlimit(60)]
fn count_keys(
    args: &Vec<Frame>,
    i: usize,
    storage: &mut Storage,
    now: u64,
    del: bool,
) -> (r: usize)
    requires
        old(storage).wf(),
        1 <= i <= args@.len(),
        old(storage).access_counter + (args@.len() - i) <= u64::MAX,
    ensures
        final(storage).wf(),
        resp_count_steps(
            view_elems(args@, 0), i as int, *old(storage), *final(storage), now,
            r as int, del,
        ),
        r <= args@.len() - i,
        final(storage).access_counter <= old(storage).access_counter + (args@.len() - i),
    decreases args@.len() - i,
{
    proof {
        crate::resp::lemma_view_elems0(args@);
    }
    let ghost fs = view_elems(args@, 0);
    if i == args.len() {
        return 0;
    }
    proof {
        assert(fs[i as int] == args@[i as int].view());
    }
    match &args[i] {
        Frame::Bulk(Some(key)) => {
            if del {
                let r = storage.delete(key.as_slice());
                let ghost mid = *storage;
                let ghost r_g = r;
                let hit: usize = match r {
                    StorageResult::Deleted => 1,
                    _ => 0,
                };
                let rest = count_keys(args, i + 1, storage, now, del);
                proof {
                    assert(fs[i as int] == FrameModel::Bulk(Some(key@)));
                    assert(Storage::delete_post(
                        *old(storage), mid, fs[i as int]->Bulk_0->0, r_g,
                    ));
                    assert(resp_count_steps(
                        fs, i + 1, mid, *storage, now, rest as int, del,
                    ));
                    assert(resp_count_steps(
                        fs, i as int, *old(storage), *storage, now,
                        (hit + rest) as int, del,
                    ));
                }
                hit + rest
            } else {
                let h = storage.get_at(key.as_slice(), now);
                let ghost mid = *storage;
                let ghost h_g = h;
                let hit: usize = match h {
                    Some(_) => 1,
                    None => 0,
                };
                let rest = count_keys(args, i + 1, storage, now, del);
                proof {
                    assert(fs[i as int] == FrameModel::Bulk(Some(key@)));
                    assert(Storage::get_post(
                        *old(storage), mid, fs[i as int]->Bulk_0->0, now, h_g,
                    ));
                    assert(resp_count_steps(
                        fs, i + 1, mid, *storage, now, rest as int, del,
                    ));
                    assert(resp_count_steps(
                        fs, i as int, *old(storage), *storage, now,
                        (hit + rest) as int, del,
                    ));
                }
                hit + rest
            }
        }
        _ => {
            let rest = count_keys(args, i + 1, storage, now, del);
            proof {
                assert(resp_count_steps(
                    fs, i as int, *old(storage), *storage, now, rest as int, del,
                ));
            }
            rest
        }
    }
}

/// Execute one RESP command frame against the store at instant `now`.
#[verifier::rlimit(100)]
pub fn execute_resp_frame(frame: &Frame, storage: &mut Storage, now: u64) -> (reply: Frame)
    requires
        resp_bounds(frame.view(), *old(storage)),
    ensures
        final(storage).wf(),
        resp_exec_post(frame.view(), *old(storage), *final(storage), now, reply.view()),
{
    let args = match frame {
        Frame::Array(Some(args)) => args,
        _ => {
            let m = ERR_FORMAT_B;
            return Frame::Error(vstd::slice::slice_to_vec(m.as_slice()));
        }
    };
    proof {
        crate::resp::lemma_view_elems0(args@);
    }
    let ghost fs = view_elems(args@, 0);
    if args.len() == 0 {
        let m = ERR_EMPTY_B;
        return Frame::Error(vstd::slice::slice_to_vec(m.as_slice()));
    }
    let name = match &args[0] {
        Frame::Bulk(Some(name)) => name,
        _ => {
            let m = ERR_CMD_B;
            return Frame::Error(vstd::slice::slice_to_vec(m.as_slice()));
        }
    };
    let cmd = upper_bytes(name.as_slice());
    if eq_bytes(&cmd, RKW_PING_B.as_slice()) {
        if args.len() > 1 {
            match &args[1] {
                Frame::Bulk(Some(m)) => Frame::Bulk(Some(crate::storage::clone_bytes(m))),
                _ => {
                    let p = PONG_B;
                    Frame::Simple(vstd::slice::slice_to_vec(p.as_slice()))
                }
            }
        } else {
            let p = PONG_B;
            Frame::Simple(vstd::slice::slice_to_vec(p.as_slice()))
        }
    } else if eq_bytes(&cmd, RKW_GET_B.as_slice()) {
        if args.len() != 2 {
            let m = ERR_GET_ARGS_B;
            return Frame::Error(vstd::slice::slice_to_vec(m.as_slice()));
        }
        match &args[1] {
            Frame::Bulk(Some(key)) => {
                let h = storage.get_at(key.as_slice(), now);
                match h {
                    Some(item) => Frame::Bulk(Some(item.value)),
                    None => Frame::Bulk(None),
                }
            }
            _ => {
                let m = ERR_KEY_B;
                Frame::Error(vstd::slice::slice_to_vec(m.as_slice()))
            }
        }
    } else if eq_bytes(&cmd, RKW_SET_B.as_slice()) {
        if args.len() < 3 {
            let m = ERR_SET_ARGS_B;
            return Frame::Error(vstd::slice::slice_to_vec(m.as_slice()));
        }
        let key = match &args[1] {
            Frame::Bulk(Some(k)) => k,
            _ => {
                let m = ERR_KEY_B;
                return Frame::Error(vstd::slice::slice_to_vec(m.as_slice()));
            }
        };
        let value = match &args[2] {
            Frame::Bulk(Some(v)) => v,
            _ => {
                let m = ERR_VALUE_B;
                return Frame::Error(vstd::slice::slice_to_vec(m.as_slice()));
            }
        };
        proof {
            assert(fs[1] == FrameModel::Bulk(Some(key@)));
            assert(fs[2] == FrameModel::Bulk(Some(value@)));
        }
        let mut ex: Option<u64> = None;
        let mut nx = false;
        let mut xx = false;
        let mut i: usize = 3;
        let n = args.len();
        let mut bad = false;
        while i < n && !bad
            invariant
                n == args@.len(),
                fs == view_elems(args@, 0),
                fs.len() == n,
                forall|j: int| 0 <= j < n ==> fs[j] == args@[j].view(),
                3 <= i,
                !bad ==> i <= n,
                bad ==> spec_set_opts(fs, 3, None, false, false) is None,
                !bad ==> spec_set_opts(fs, 3, None, false, false)
                    == spec_set_opts(fs, i as int, ex, nx, xx),
            decreases n - i + (if bad { 0int } else { 1int }),
        {
            match &args[i] {
                Frame::Bulk(Some(o)) => {
                    if eq_nocase_bytes(o.as_slice(), RKW_EX_B.as_slice()) {
                        if i + 1 >= n {
                            bad = true;
                        } else {
                            match frame_u64_exec(&args[i + 1]) {
                                Some(secs) => {
                                    ex = Some(secs);
                                    i = i + 2;
                                }
                                None => {
                                    bad = true;
                                }
                            }
                        }
                    } else if eq_nocase_bytes(o.as_slice(), RKW_PX_B.as_slice()) {
                        if i + 1 >= n {
                            bad = true;
                        } else {
                            match frame_u64_exec(&args[i + 1]) {
                                Some(ms) => {
                                    let w = ms.wrapping_add(999);
                                    proof {
                                        assert(w == (ms + 999) % 0x1_0000_0000_0000_0000);
                                    }
                                    ex = Some(w / 1000);
                                    i = i + 2;
                                }
                                None => {
                                    bad = true;
                                }
                            }
                        }
                    } else if eq_nocase_bytes(o.as_slice(), RKW_NX_B.as_slice()) {
                        nx = true;
                        i = i + 1;
                    } else if eq_nocase_bytes(o.as_slice(), RKW_XX_B.as_slice()) {
                        xx = true;
                        i = i + 1;
                    } else {
                        bad = true;
                    }
                }
                _ => {
                    bad = true;
                }
            }
        }
        if bad {
            let m = ERR_SYNTAX_B;
            return Frame::Error(vstd::slice::slice_to_vec(m.as_slice()));
        }
        let ttl = match ex {
            Some(t) => t,
            None => 0,
        };
        if nx && xx {
            let m = ERR_NXXX_B;
            return Frame::Error(vstd::slice::slice_to_vec(m.as_slice()));
        }
        let r = if nx {
            storage.add_at(key.as_slice(), crate::storage::clone_bytes(value), 0, ttl, now)
        } else if xx {
            storage.replace_at(key.as_slice(), crate::storage::clone_bytes(value), 0, ttl, now)
        } else {
            storage.set_at(key.as_slice(), crate::storage::clone_bytes(value), 0, ttl, now)
        };
        match r {
            StorageResult::Stored => {
                let p = ROK_B;
                Frame::Simple(vstd::slice::slice_to_vec(p.as_slice()))
            }
            _ => Frame::Bulk(None),
        }
    } else if eq_bytes(&cmd, RKW_DEL_B.as_slice()) {
        if args.len() < 2 {
            let m = ERR_DEL_ARGS_B;
            return Frame::Error(vstd::slice::slice_to_vec(m.as_slice()));
        }
        let count = count_keys(args, 1, storage, now, true);
        proof {
            assert(count < args@.len());
            assert(resp_count_steps(
                frame.view()->Array_0->0, 1, *old(storage), *storage, now,
                count as int, true,
            ));
        }
        let v: i64 = if count as u64 > i64::MAX as u64 { i64::MAX } else { count as i64 };
        proof {
            assert(resp_count_post(
                frame.view()->Array_0->0, *old(storage), *storage, now,
                FrameModel::Integer(v), true,
            ));
        }
        Frame::Integer(v)
    } else if eq_bytes(&cmd, RKW_EXISTS_B.as_slice()) {
        if args.len() < 2 {
            let m = ERR_EXISTS_ARGS_B;
            return Frame::Error(vstd::slice::slice_to_vec(m.as_slice()));
        }
        let count = count_keys(args, 1, storage, now, false);
        proof {
            assert(count < args@.len());
            assert(resp_count_steps(
                frame.view()->Array_0->0, 1, *old(storage), *storage, now,
                count as int, false,
            ));
        }
        let v: i64 = if count as u64 > i64::MAX as u64 { i64::MAX } else { count as i64 };
        proof {
            assert(resp_count_post(
                frame.view()->Array_0->0, *old(storage), *storage, now,
                FrameModel::Integer(v), false,
            ));
        }
        Frame::Integer(v)
    } else if eq_bytes(&cmd, RKW_FLUSHALL_B.as_slice()) || eq_bytes(&cmd, RKW_FLUSHDB_B.as_slice()) {
        storage.flush_all();
        let p = ROK_B;
        Frame::Simple(vstd::slice::slice_to_vec(p.as_slice()))
    } else if eq_bytes(&cmd, RKW_DBSIZE_B.as_slice()) {
        let c = storage.entries.len();
        let v: i64 = if c as u64 > i64::MAX as u64 { i64::MAX } else { c as i64 };
        Frame::Integer(v)
    } else if eq_bytes(&cmd, RKW_HELLO_B.as_slice()) {
        let ver: u64 = if args.len() > 1 {
            match frame_u64_exec(&args[1]) {
                Some(v) => v,
                None => {
                    let m = ERR_PROTO_B;
                    return Frame::Error(vstd::slice::slice_to_vec(m.as_slice()));
                }
            }
        } else {
            2
        };
        let v: i64 = if ver < 2 { 2 } else if ver > 3 { 3 } else { ver as i64 };
        let mut items: Vec<Frame> = Vec::new();
        let b1 = SERVER_B;
        items.push(Frame::Bulk(Some(vstd::slice::slice_to_vec(b1.as_slice()))));
        let b2 = NAME_B;
        items.push(Frame::Bulk(Some(vstd::slice::slice_to_vec(b2.as_slice()))));
        let b3 = VERSION_KW_B;
        items.push(Frame::Bulk(Some(vstd::slice::slice_to_vec(b3.as_slice()))));
        let b4 = VERNUM_B;
        items.push(Frame::Bulk(Some(vstd::slice::slice_to_vec(b4.as_slice()))));
        let b5 = PROTO_B;
        items.push(Frame::Bulk(Some(vstd::slice::slice_to_vec(b5.as_slice()))));
        items.push(Frame::Integer(v));
        let reply = Frame::Array(Some(items));
        proof {
            crate::resp::lemma_view_elems0(reply->Array_0->0@);
            assert(reply.view()->Array_0->0 =~= hello_reply(ver)->Array_0->0);
        }
        reply
    } else if eq_bytes(&cmd, RKW_COMMAND_B.as_slice()) {
        let items: Vec<Frame> = Vec::new();
        let reply = Frame::Array(Some(items));
        proof {
            assert(view_elems(items@, 0) =~= Seq::<FrameModel>::empty());
        }
        reply
    } else if eq_bytes(&cmd, RKW_QUIT_B.as_slice()) {
        let p = ROK_B;
        Frame::Simple(vstd::slice::slice_to_vec(p.as_slice()))
    } else {
        let mut msg: Vec<u8> = Vec::new();
        let head = ERR_UNKNOWN_B;
        msg.extend_from_slice(head.as_slice());
        msg.extend_from_slice(cmd.as_slice());
        msg.push(39u8);
        proof {
            assert(msg@ =~= seq![69u8, 82u8, 82u8, 32u8, 117u8, 110u8, 107u8, 110u8, 111u8, 119u8, 110u8, 32u8, 99u8, 111u8, 109u8, 109u8, 97u8, 110u8, 100u8, 32u8, 39u8] + upper_seq(name@) + seq![39u8]);
        }
        Frame::Error(msg)
    }
}

/// The RESP oversized-value error message as bytes.
const ERR_TOO_LARGE_B: [u8; 19] = [69u8, 82u8, 82u8, 32u8, 118u8, 97u8, 108u8, 117u8, 101u8, 32u8, 116u8, 111u8, 111u8, 32u8, 108u8, 97u8, 114u8, 103u8, 101u8];
/// The `SET` name checked for the oversized-value guard.
const RSET_KW_B: [u8; 3] = [83u8, 69u8, 84u8];

/// Whether the frame is a RESP `SET` whose value exceeds the configured
/// maximum.
pub open spec fn resp_set_too_large(f: FrameModel, max_value_size: usize) -> bool {
    match f {
        FrameModel::Array(Some(args)) => {
            &&& args.len() >= 3
            &&& match args[0] {
                FrameModel::Bulk(Some(nm)) => eq_nocase(nm, seq![83u8, 69u8, 84u8]),
                _ => false,
            }
            &&& match args[2] {
                FrameModel::Bulk(Some(v)) => v.len() > max_value_size,
                _ => false,
            }
        },
        _ => false,
    }
}

/// What `process_resp_at` does: parse one frame, reject an oversized `SET`
/// value, otherwise execute the command and leave the encoded reply in the
/// output buffer (or hand a large reply back whole).
pub open spec fn resp_process_post(
    input: Seq<u8>,
    pre: Storage,
    post: Storage,
    out0: Seq<u8>,
    out1: Seq<u8>,
    max_value_size: usize,
    now: u64,
    r: ProcessResult,
) -> bool {
    match crate::resp::spec_parse(input) {
        ParseModel::Incomplete => {
            &&& r is NeedData
            &&& post == pre
            &&& out1 == out0
        },
        ParseModel::Error => {
            &&& r is Error
            &&& post == pre
            &&& out1 == out0
        },
        ParseModel::Complete(f, c) => {
            if resp_set_too_large(f, max_value_size) {
                let resp = spec_encode(FrameModel::Error(seq![69u8, 82u8, 82u8, 32u8, 118u8, 97u8, 108u8, 117u8, 101u8, 32u8, 116u8, 111u8, 111u8, 32u8, 108u8, 97u8, 114u8, 103u8, 101u8]));
                &&& r == (ProcessResult::Response {
                    consumed: c as usize,
                    response_len: copy_len(resp, out0.len()) as usize,
                })
                &&& post == pre
                &&& out1 == copied_out(resp, out0)
            } else {
                exists|reply: FrameModel|
                    {
                        &&& #[trigger] resp_exec_post(f, pre, post, now, reply)
                        &&& ({
                            let enc = spec_encode(reply);
                            if enc.len() > out0.len() {
                                match r {
                                    ProcessResult::LargeResponse { consumed, response_data } => {
                                        &&& consumed == c
                                        &&& response_data@ == enc
                                        &&& out1 == out0
                                    },
                                    _ => false,
                                }
                            } else {
                                &&& r == (ProcessResult::Response {
                                    consumed: c as usize,
                                    response_len: enc.len() as usize,
                                })
                                &&& out1 == copied_out(enc, out0)
                            }
                        })
                    }
            }
        },
    }
}

/// Machine bounds `process_resp_at` needs.
pub open spec fn resp_process_bounds(input: Seq<u8>, s: Storage) -> bool {
    &&& s.wf()
    &&& s.cas_counter < u64::MAX
    &&& s.access_counter + input.len() + 2 <= u64::MAX
    &&& ITEM_OVERHEAD + input.len() + input.len() <= usize::MAX
}

/// Process one RESP buffer at instant `now`.
pub fn process_resp_at(
    input: &[u8],
    output: &mut [u8],
    storage: &mut Storage,
    max_value_size: usize,
    now: u64,
) -> (r: ProcessResult)
    requires
        resp_process_bounds(input@, *old(storage)),
    ensures
        final(storage).wf(),
        final(output)@.len() == old(output)@.len(),
        resp_process_post(
            input@, *old(storage), *final(storage), old(output)@, final(output)@,
            max_value_size, now, r,
        ),
{
    let parsed = crate::resp::parse(input);
    match parsed {
        crate::resp::ParseResult::Incomplete => ProcessResult::NeedData,
        crate::resp::ParseResult::Error => ProcessResult::Error,
        crate::resp::ParseResult::Complete(frame, consumed) => {
            let ghost fm = frame.view();
            let mut too_large = false;
            match &frame {
                Frame::Array(Some(args)) => {
                    proof {
                        crate::resp::lemma_view_elems0(args@);
                    }
                    if args.len() >= 3 {
                        let name_ok = match &args[0] {
                            Frame::Bulk(Some(nm)) => {
                                let kw = RSET_KW_B;
                                eq_nocase_bytes(nm.as_slice(), kw.as_slice())
                            }
                            _ => false,
                        };
                        if name_ok {
                            match &args[2] {
                                Frame::Bulk(Some(v)) => {
                                    if v.len() > max_value_size {
                                        too_large = true;
                                    }
                                }
                                _ => {}
                            }
                        }
                    }
                }
                _ => {}
            }
            if too_large {
                let msg = ERR_TOO_LARGE_B;
                let reply = Frame::Error(vstd::slice::slice_to_vec(msg.as_slice()));
                let enc = reply.encode();
                proof {
                    assert(reply.view() == FrameModel::Error(seq![69u8, 82u8, 82u8, 32u8, 118u8, 97u8, 108u8, 117u8, 101u8, 32u8, 116u8, 111u8, 111u8, 32u8, 108u8, 97u8, 114u8, 103u8, 101u8])) by {
                        assert(msg@ =~= seq![69u8, 82u8, 82u8, 32u8, 118u8, 97u8, 108u8, 117u8, 101u8, 32u8, 116u8, 111u8, 111u8, 32u8, 108u8, 97u8, 114u8, 103u8, 101u8]);
                    }
                }
                let len = copy_response(enc.as_slice(), output);
                return ProcessResult::Response { consumed, response_len: len };
            }
            proof {
                lemma_resp_exec_bounds(input@, fm, *old(storage));
            }
            let reply = execute_resp_frame(&frame, storage, now);
            let enc = reply.encode();
            if enc.len() > output.len() {
                proof {
                    assert(resp_exec_post(fm, *old(storage), *storage, now, reply.view()));
                }
                ProcessResult::LargeResponse { consumed, response_data: enc }
            } else {
                let len = copy_response(enc.as_slice(), output);
                proof {
                    assert(resp_exec_post(fm, *old(storage), *storage, now, reply.view()));
                }
                ProcessResult::Response { consumed, response_len: len }
            }
        }
    }
}

/// A frame parsed out of `input` satisfies the executor's bounds.
proof fn lemma_resp_exec_bounds(input: Seq<u8>, f: FrameModel, s: Storage)
    requires
        resp_process_bounds(input, s),
        crate::resp::frame_within(f, input.len() as int),
    ensures
        resp_bounds(f, s),
{
    match f {
        FrameModel::Array(Some(args)) => {
            crate::resp::lemma_frames_within_index(args, 0, input.len() as int);
            if args.len() >= 3 {
                assert(crate::resp::frame_within(args[1], input.len() as int));
                assert(crate::resp::frame_within(args[2], input.len() as int));
            }
        }
        _ => {}
    }
}

/// Process one RESP buffer, judging time by the system clock.
pub fn process_resp(
    input: &[u8],
    output: &mut [u8],
    storage: &mut Storage,
    max_value_size: usize,
) -> (r: ProcessResult)
    requires
        resp_process_bounds(input@, *old(storage)),
    ensures
        final(storage).wf(),
        final(output)@.len() == old(output)@.len(),
        exists|now: u64| resp_process_post(
            input@, *old(storage), *final(storage), old(output)@, final(output)@,
            max_value_size, now, r,
        ),
{
    let now = crate::storage::clock_seconds();
    process_resp_at(input, output, storage, max_value_size, now)
}

/// Process one buffer of whichever protocol the connection speaks: the one
/// synchronous step the event loops drive.
pub fn process(
    protocol: Protocol,
    input: &[u8],
    output: &mut [u8],
    storage: &mut Storage,
    max_value_size: usize,
) -> (r: ProcessResult)
    requires
        mc_bounds(input@, *old(storage), max_value_size),
        resp_process_bounds(input@, *old(storage)),
        input@.len() + max_value_size + 22 <= usize::MAX,
    ensures
        final(storage).wf(),
        final(output)@.len() == old(output)@.len(),
        match protocol {
            Protocol::Memcached => exists|now: u64| mc_post(
                input@, *old(storage), *final(storage), old(output)@, final(output)@,
                max_value_size, now, r,
            ),
            Protocol::Resp => exists|now: u64| resp_process_post(
                input@, *old(storage), *final(storage), old(output)@, final(output)@,
                max_value_size, now, r,
            ),
            Protocol::Ping => {
                &&& ping_post(input@, old(output)@, final(output)@, r)
                &&& *final(storage) == *old(storage)
            },
            Protocol::Echo => {
                &&& echo_post(input@, old(output)@, final(output)@, max_value_size, r)
                &&& *final(storage) == *old(storage)
            },
        },
{
    match protocol {
        Protocol::Memcached => process_memcached(input, output, storage, max_value_size),
        Protocol::Resp => process_resp(input, output, storage, max_value_size),
        Protocol::Ping => process_ping(input, output, storage),
        Protocol::Echo => process_echo(input, output, storage, max_value_size),
    }
}

} // verus!

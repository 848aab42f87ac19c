//! Byte-level helpers the wire codecs share: line endings, ASCII
//! case-insensitive comparison, and copying a response into an output buffer.

use vstd::prelude::*;

verus! {

/// ASCII lower-casing of one byte.
pub open spec fn lower(b: u8) -> u8 {
    if 65 <= b <= 90 {
        (b + 32) as u8
    } else {
        b
    }
}

/// ASCII case-insensitive equality of byte strings.
pub open spec fn eq_nocase(a: Seq<u8>, b: Seq<u8>) -> bool {
    a.len() == b.len() && forall|i: int| 0 <= i < a.len() ==> lower(a[i]) == lower(b[i])
}

/// ASCII case-insensitive comparison.
pub fn eq_nocase_bytes(a: &[u8], b: &[u8]) -> (r: bool)
    ensures
        r == eq_nocase(a@, b@),
{
    if a.len() != b.len() {
        return false;
    }
    let n = a.len();
    for i in 0..n
        invariant
            n == a@.len() == b@.len(),
            forall|j: int| 0 <= j < i ==> lower(a@[j]) == lower(b@[j]),
    {
        let x = a[i];
        let y = b[i];
        let lx = if 65 <= x && x <= 90 { x + 32 } else { x };
        let ly = if 65 <= y && y <= 90 { y + 32 } else { y };
        if lx != ly {
            return false;
        }
    }
    true
}

/// Whether a CRLF pair sits at position `i`.
pub open spec fn crlf_at(s: Seq<u8>, i: int) -> bool {
    s[i] == 13 && s[i + 1] == 10
}

/// Position of the first CRLF pair in `s`, or -1.
pub open spec fn spec_find_crlf(s: Seq<u8>) -> int
    decreases s.len(),
{
    if s.len() < 2 {
        -1
    } else if s[0] == 13 && s[1] == 10 {
        0
    } else {
        let r = spec_find_crlf(s.drop_first());
        if r == -1 {
            -1
        } else {
            r + 1
        }
    }
}

/// `spec_find_crlf` names the first CRLF pair, or -1 when there is none.
pub proof fn lemma_spec_find_crlf(s: Seq<u8>)
    ensures
        -1 <= spec_find_crlf(s),
        spec_find_crlf(s) == -1 ==> forall|j: int|
            0 <= j < s.len() - 1 ==> !crlf_at(s, j),
        spec_find_crlf(s) >= 0 ==> {
            &&& spec_find_crlf(s) < s.len() - 1
            &&& crlf_at(s, spec_find_crlf(s))
            &&& forall|j: int| 0 <= j < spec_find_crlf(s) ==> !crlf_at(s, j)
        },
    decreases s.len(),
{
    if s.len() < 2 {
    } else if s[0] == 13 && s[1] == 10 {
    } else {
        lemma_spec_find_crlf(s.drop_first());
        assert(forall|j: int| 0 <= j < s.len() - 1 ==> s.drop_first()[j] == s[j + 1]);
        let r = spec_find_crlf(s.drop_first());
        if r == -1 {
            assert forall|j: int| 0 <= j < s.len() - 1 implies !crlf_at(s, j) by {
                if j > 0 {
                    assert(!crlf_at(s.drop_first(), j - 1));
                }
            }
        } else {
            assert(crlf_at(s.drop_first(), r));
            assert forall|j: int| 0 <= j < r + 1 implies !crlf_at(s, j) by {
                if j > 0 {
                    assert(!crlf_at(s.drop_first(), j - 1));
                }
            }
        }
    }
}

/// The first CRLF position determines `spec_find_crlf`.
pub proof fn lemma_find_crlf_at(s: Seq<u8>, i: int)
    requires
        0 <= i < s.len() - 1,
        crlf_at(s, i),
        forall|j: int| 0 <= j < i ==> !crlf_at(s, j),
    ensures
        spec_find_crlf(s) == i,
    decreases s.len(),
{
    if i == 0 {
    } else {
        assert(forall|j: int| 0 <= j < s.len() - 1 ==> s.drop_first()[j] == s[j + 1]);
        assert(crlf_at(s.drop_first(), i - 1));
        assert forall|j: int| 0 <= j < i - 1 implies !crlf_at(s.drop_first(), j) by {
            assert(!crlf_at(s, j + 1));
        }
        lemma_find_crlf_at(s.drop_first(), i - 1);
        assert(!crlf_at(s, 0));
    }
}

/// Find the first CRLF pair, returning the position of the CR.
pub fn find_crlf(buffer: &[u8]) -> (r: Option<usize>)
    ensures
        match r {
            Some(i) => i == spec_find_crlf(buffer@),
            None => spec_find_crlf(buffer@) == -1,
        },
        spec_find_crlf(buffer@) >= 0 ==> {
            &&& spec_find_crlf(buffer@) < buffer@.len() - 1
            &&& crlf_at(buffer@, spec_find_crlf(buffer@))
        },
{
    proof {
        lemma_spec_find_crlf(buffer@);
    }
    let n = buffer.len();
    if n < 2 {
        proof {
            if spec_find_crlf(buffer@) >= 0 {
                lemma_spec_find_crlf(buffer@);
            }
        }
        return None;
    }
    let mut i: usize = 0;
    while i < n - 1
        invariant
            n == buffer@.len(),
            n >= 2,
            i <= n - 1,
            forall|j: int| 0 <= j < i ==> !crlf_at(buffer@, j),
        decreases n - i,
    {
        if buffer[i] == 13 && buffer[i + 1] == 10 {
            proof {
                lemma_find_crlf_at(buffer@, i as int);
            }
            return Some(i);
        }
        i = i + 1;
    }
    proof {
        lemma_spec_find_crlf(buffer@);
        if spec_find_crlf(buffer@) >= 0 {
            assert(crlf_at(buffer@, spec_find_crlf(buffer@)));
        }
    }
    None
}

/// Copy as much of `response` as fits into the front of `output`; the rest
/// of `output` keeps its old bytes. Returns how many bytes were copied.
pub fn copy_response(response: &[u8], output: &mut [u8]) -> (r: usize)
    ensures
        r == if response@.len() <= old(output)@.len() {
            response@.len() as int
        } else {
            old(output)@.len() as int
        },
        final(output)@.len() == old(output)@.len(),
        final(output)@ == response@.take(r as int) + old(output)@.skip(r as int),
{
    let n = if response.len() <= output.len() {
        response.len()
    } else {
        output.len()
    };
    for i in 0..n
        invariant
            n <= response@.len(),
            n <= output@.len(),
            output@.len() == old(output)@.len(),
            forall|j: int| 0 <= j < i ==> output@[j] == response@[j],
            forall|j: int| i <= j < output@.len() ==> output@[j] == old(output)@[j],
    {
        output[i] = response[i];
    }
    proof {
        assert(output@ =~= response@.take(n as int) + old(output)@.skip(n as int));
    }
    n
}

} // verus!

//! Elementary-stream framer: locates H.264 access-unit boundaries inside a
//! raw byte buffer, delimited by 3-byte (`00 00 01`) or 4-byte (`00 00 00 01`)
//! start codes. Stateless: the caller keeps the scan position.
use vstd::prelude::*;

verus! {

/// A 3-byte start code begins at `i`.
pub open spec fn starts3(b: Seq<u8>, i: int) -> bool {
    0 <= i && i + 3 <= b.len() && b[i] == 0 && b[i + 1] == 0 && b[i + 2] == 1
}

/// A 4-byte start code begins at `i`.
pub open spec fn starts4(b: Seq<u8>, i: int) -> bool {
    0 <= i && i + 4 <= b.len() && b[i] == 0 && b[i + 1] == 0 && b[i + 2] == 0 && b[i + 3] == 1
}

/// A start code is recognised at `i`: the scan window keeps a full 4-byte
/// lookahead, so codes in the last four bytes of the buffer are not opened.
pub open spec fn code_at(b: Seq<u8>, i: int) -> bool {
    0 <= i && i + 4 < b.len() && (starts3(b, i) || starts4(b, i))
}

/// Length of the start code recognised at `i`.
pub open spec fn code_len(b: Seq<u8>, i: int) -> int {
    if starts3(b, i) {
        3
    } else {
        4
    }
}

/// Position of the first recognised start code at or after `i`, or `b.len()`
/// if there is none.
pub open spec fn spec_find_code(b: Seq<u8>, i: int) -> int
    decreases b.len() - i,
{
    if i < 0 {
        spec_find_code(b, 0)
    } else if i + 4 >= b.len() {
        b.len() as int
    } else if starts3(b, i) || starts4(b, i) {
        i
    } else {
        spec_find_code(b, i + 1)
    }
}

pub proof fn lemma_find_code(b: Seq<u8>, i: int)
    requires
        0 <= i <= b.len(),
    ensures
        i <= spec_find_code(b, i) <= b.len(),
        spec_find_code(b, i) < b.len() ==> code_at(b, spec_find_code(b, i)),
        forall|j: int| i <= j < spec_find_code(b, i) ==> !code_at(b, j),
    decreases b.len() - i,
{
    if i + 4 >= b.len() {
        assert forall|j: int| i <= j < spec_find_code(b, i) implies !code_at(b, j) by {}
    } else if starts3(b, i) || starts4(b, i) {
    } else {
        lemma_find_code(b, i + 1);
    }
}

pub proof fn lemma_find_code_unique(b: Seq<u8>, i: int, p: int)
    requires
        0 <= i <= p,
        code_at(b, p),
        forall|j: int| i <= j < p ==> !code_at(b, j),
    ensures
        spec_find_code(b, i) == p,
    decreases p - i,
{
    if i < p {
        assert(!code_at(b, i));
        lemma_find_code_unique(b, i + 1, p);
    }
}

pub proof fn lemma_find_code_none(b: Seq<u8>, i: int)
    requires
        0 <= i,
        forall|j: int| i <= j ==> !code_at(b, j),
    ensures
        spec_find_code(b, i) == b.len(),
    decreases b.len() - i,
{
    if i + 4 < b.len() {
        assert(!code_at(b, i));
        lemma_find_code_none(b, i + 1);
    }
}

/// The next access unit of `b` starting the scan at `from`: start index, end
/// index (exclusive), and whether it is the terminal unit of the buffer.
pub open spec fn spec_next_unit(b: Seq<u8>, from: int) -> Option<(int, int, bool)> {
    let s = spec_find_code(b, from);
    if s == b.len() {
        None
    } else {
        let e = spec_find_code(b, s + code_len(b, s));
        if e == b.len() {
            Some((s, b.len() as int, true))
        } else {
            Some((s, e, false))
        }
    }
}

fn find_start_code(b: &[u8], from: usize) -> (r: usize)
    ensures
        r == spec_find_code(b@, from as int),
        r <= b@.len(),
{
    let n = b.len();
    let mut i = from;
    loop
        invariant
            from <= i,
            n == b@.len(),
            spec_find_code(b@, from as int) == spec_find_code(b@, i as int),
        decreases n - i,
    {
        if i >= n || n - i <= 4 {
            return n;
        }
        if b[i] == 0 && b[i + 1] == 0 && b[i + 2] == 1 {
            return i;
        }
        if b[i] == 0 && b[i + 1] == 0 && b[i + 2] == 0 && b[i + 3] == 1 {
            return i;
        }
        i = i + 1;
    }
}

/// Scan forward from `from` for the next access unit. A unit spans from its
/// opening start code (prefix retained) to the next start code of either
/// form, or to the end of the buffer if no further code follows; in the
/// latter case it is flagged as the terminal, possibly truncated, unit.
/// A buffer shorter than the 4-byte scan window holds no unit.
pub fn next_unit(b: &[u8], from: usize) -> (r: Option<(usize, usize, bool)>)
    ensures
        (match r {
            None => spec_next_unit(b@, from as int) is None,
            Some((s, e, last)) => spec_next_unit(b@, from as int) == Some(
                (s as int, e as int, last),
            ),
        }),
{
    let n = b.len();
    let s = find_start_code(b, from);
    if s == n {
        return None;
    }
    proof {
        if from as int > b@.len() {
            assert(spec_find_code(b@, from as int) == b@.len());
        }
        lemma_find_code(b@, from as int);
    }
    let clen: usize = if b[s + 2] == 1 {
        3
    } else {
        4
    };
    let e = find_start_code(b, s + clen);
    if e == n {
        Some((s, n, true))
    } else {
        Some((s, e, false))
    }
}

/// The next access unit as a borrowed slice of the source buffer, together
/// with the terminal flag, scanning from `from`.
pub fn extract_nal<'a>(b: &'a [u8], from: usize) -> (r: Option<(&'a [u8], bool)>)
    ensures
        (match r {
            None => spec_next_unit(b@, from as int) is None,
            Some((u, last)) => {
                &&& spec_next_unit(b@, from as int) is Some
                &&& u@ == b@.subrange(
                    spec_next_unit(b@, from as int)->Some_0.0,
                    spec_next_unit(b@, from as int)->Some_0.1,
                )
                &&& last == spec_next_unit(b@, from as int)->Some_0.2
            },
        }),
{
    match next_unit(b, from) {
        None => None,
        Some((s, e, last)) => {
            proof {
                if from as int > b@.len() {
                    assert(spec_find_code(b@, from as int) == b@.len());
                }
                lemma_find_code(b@, from as int);
                let st = spec_find_code(b@, from as int);
                lemma_find_code(b@, st + code_len(b@, st));
            }
            Some((vstd::slice::slice_subrange(b, s, e), last))
        },
    }
}

/// A buffer with no recognised start code yields no unit, from any position.
pub proof fn lemma_no_code_no_unit(b: Seq<u8>, from: int)
    requires
        0 <= from,
        forall|i: int| !code_at(b, i),
    ensures
        spec_next_unit(b, from) is None,
{
    lemma_find_code_none(b, from);
}

/// Exactly two start codes, of either form, the second clear of the first:
/// the first unit spans from the first code to the second with more to
/// come, and a second scan from the second code yields the terminal unit
/// running to the end of the buffer. The 3- and 4-byte forms mix freely as
/// openers and closers.
pub proof fn lemma_mixed_codes(b: Seq<u8>, p0: int, p1: int)
    requires
        code_at(b, p0),
        code_at(b, p1),
        p0 + code_len(b, p0) <= p1,
        forall|i: int| code_at(b, i) ==> i == p0 || i == p1,
    ensures
        spec_next_unit(b, 0) == Some((p0, p1, false)),
        spec_next_unit(b, p1) == Some((p1, b.len() as int, true)),
{
    lemma_find_code_unique(b, 0, p0);
    lemma_find_code_unique(b, p0 + code_len(b, p0), p1);
    lemma_find_code_unique(b, p1, p1);
    lemma_find_code_none(b, p1 + code_len(b, p1));
}

/// Two 3-byte start codes and nothing else: the first unit spans from the
/// first code to the second, and a second scan from the second code yields
/// the terminal unit running to the end of the buffer.
pub proof fn lemma_two_codes(b: Seq<u8>, p0: int, p1: int)
    requires
        p0 < p1,
        code_at(b, p0),
        code_at(b, p1),
        starts3(b, p0),
        starts3(b, p1),
        forall|i: int| code_at(b, i) ==> i == p0 || i == p1,
    ensures
        spec_next_unit(b, 0) == Some((p0, p1, false)),
        spec_next_unit(b, p1) == Some((p1, b.len() as int, true)),
{
    assert(!starts4(b, p0)) by {
        assert(b[p0 + 2] == 1);
    }
    assert(p0 + 3 <= p1);
    lemma_mixed_codes(b, p0, p1);
}

} // verus!

//! Byte-level helpers shared by the message codec and the session engine:
//! locating line terminators, trimming ASCII whitespace, and converting
//! between decimal text and integers.
use vstd::prelude::*;

verus! {

pub const CR: u8 = 13;
pub const LF: u8 = 10;
pub const SP: u8 = 32;
pub const HTAB: u8 = 9;
pub const COLON: u8 = 58;
pub const SLASH: u8 = 47;
pub const DASH: u8 = 45;
pub const SEMI: u8 = 59;
pub const PLUS: u8 = 43;
pub const ZERO: u8 = 48;

pub open spec fn is_ws_byte(b: u8) -> bool {
    b == SP || b == HTAB
}

pub open spec fn is_digit_byte(b: u8) -> bool {
    ZERO <= b && b <= 57
}

/// A CRLF pair starts at position `i` of `s`.
pub open spec fn crlf_at(s: Seq<u8>, i: int) -> bool {
    0 <= i && i + 2 <= s.len() && s[i] == CR && s[i + 1] == LF
}

/// Index of the first CRLF pair at or after `from`, or `s.len()` if none.
pub open spec fn spec_find_crlf(s: Seq<u8>, from: int) -> int
    decreases s.len() - from,
{
    if from < 0 {
        spec_find_crlf(s, 0)
    } else if from + 2 > s.len() {
        s.len() as int
    } else if s[from] == CR && s[from + 1] == LF {
        from
    } else {
        spec_find_crlf(s, from + 1)
    }
}

pub proof fn lemma_find_crlf(s: Seq<u8>, from: int)
    requires
        0 <= from <= s.len(),
    ensures
        from <= spec_find_crlf(s, from) <= s.len(),
        spec_find_crlf(s, from) < s.len() ==> crlf_at(s, spec_find_crlf(s, from)),
        forall|j: int| from <= j < spec_find_crlf(s, from) ==> !crlf_at(s, j),
    decreases s.len() - from,
{
    if from + 2 > s.len() {
        assert forall|j: int| from <= j < spec_find_crlf(s, from) implies !crlf_at(s, j) by {}
    } else if s[from] == CR && s[from + 1] == LF {
    } else {
        lemma_find_crlf(s, from + 1);
    }
}

/// `spec_find_crlf` is the unique "first CRLF" position, so any position
/// known to be first equals it.
pub proof fn lemma_find_crlf_unique(s: Seq<u8>, from: int, i: int)
    requires
        0 <= from <= i,
        crlf_at(s, i),
        forall|j: int| from <= j < i ==> !crlf_at(s, j),
    ensures
        spec_find_crlf(s, from) == i,
    decreases i - from,
{
    if from < i {
        assert(!crlf_at(s, from));
        lemma_find_crlf_unique(s, from + 1, i);
    }
}

pub fn find_crlf(s: &[u8], from: usize) -> (r: usize)
    requires
        from <= s@.len(),
    ensures
        r == spec_find_crlf(s@, from as int),
{
    let n = s.len();
    let mut i = from;
    loop
        invariant
            from <= i <= n,
            n == s@.len(),
            spec_find_crlf(s@, from as int) == spec_find_crlf(s@, i as int),
        decreases n - i,
    {
        if n - i < 2 {
            return n;
        }
        if s[i] == CR && s[i + 1] == LF {
            return i;
        }
        i = i + 1;
    }
}

/// Index of the first occurrence of byte `b` at or after `from`, or `s.len()`.
pub open spec fn spec_find_byte(s: Seq<u8>, from: int, b: u8) -> int
    decreases s.len() - from,
{
    if from < 0 {
        spec_find_byte(s, 0, b)
    } else if from >= s.len() {
        s.len() as int
    } else if s[from] == b {
        from
    } else {
        spec_find_byte(s, from + 1, b)
    }
}

pub proof fn lemma_find_byte(s: Seq<u8>, from: int, b: u8)
    requires
        0 <= from <= s.len(),
    ensures
        from <= spec_find_byte(s, from, b) <= s.len(),
        spec_find_byte(s, from, b) < s.len() ==> s[spec_find_byte(s, from, b)] == b,
        forall|j: int| from <= j < spec_find_byte(s, from, b) ==> s[j] != b,
    decreases s.len() - from,
{
    if from >= s.len() {
    } else if s[from] == b {
    } else {
        lemma_find_byte(s, from + 1, b);
    }
}

pub proof fn lemma_find_byte_unique(s: Seq<u8>, from: int, b: u8, i: int)
    requires
        0 <= from <= i < s.len(),
        s[i] == b,
        forall|j: int| from <= j < i ==> s[j] != b,
    ensures
        spec_find_byte(s, from, b) == i,
    decreases i - from,
{
    if from < i {
        lemma_find_byte_unique(s, from + 1, b, i);
    }
}

pub fn find_byte(s: &[u8], from: usize, b: u8) -> (r: usize)
    requires
        from <= s@.len(),
    ensures
        r == spec_find_byte(s@, from as int, b),
{
    let n = s.len();
    let mut i = from;
    loop
        invariant
            from <= i <= n,
            n == s@.len(),
            spec_find_byte(s@, from as int, b) == spec_find_byte(s@, i as int, b),
        decreases n - i,
    {
        if i >= n {
            return n;
        }
        if s[i] == b {
            return i;
        }
        i = i + 1;
    }
}

/// Index of the first whitespace byte at or after `from`, or `s.len()`.
pub open spec fn spec_find_ws(s: Seq<u8>, from: int) -> int
    decreases s.len() - from,
{
    if from < 0 {
        spec_find_ws(s, 0)
    } else if from >= s.len() {
        s.len() as int
    } else if is_ws_byte(s[from]) {
        from
    } else {
        spec_find_ws(s, from + 1)
    }
}

pub proof fn lemma_find_ws(s: Seq<u8>, from: int)
    requires
        0 <= from <= s.len(),
    ensures
        from <= spec_find_ws(s, from) <= s.len(),
        spec_find_ws(s, from) < s.len() ==> is_ws_byte(s[spec_find_ws(s, from)]),
        forall|j: int| from <= j < spec_find_ws(s, from) ==> !is_ws_byte(s[j]),
    decreases s.len() - from,
{
    if from < s.len() && !is_ws_byte(s[from]) {
        lemma_find_ws(s, from + 1);
    }
}

pub proof fn lemma_find_ws_unique(s: Seq<u8>, from: int, i: int)
    requires
        0 <= from <= i,
        i < s.len(),
        is_ws_byte(s[i]),
        forall|j: int| from <= j < i ==> !is_ws_byte(s[j]),
    ensures
        spec_find_ws(s, from) == i,
    decreases i - from,
{
    if from < i {
        lemma_find_ws_unique(s, from + 1, i);
    }
}

/// When no whitespace follows, the scan runs to the end.
pub proof fn lemma_find_ws_none(s: Seq<u8>, from: int)
    requires
        0 <= from,
        forall|j: int| from <= j < s.len() ==> !is_ws_byte(s[j]),
    ensures
        spec_find_ws(s, from) == s.len(),
    decreases s.len() - from,
{
    if from < s.len() {
        lemma_find_ws_none(s, from + 1);
    }
}

pub fn find_ws(s: &[u8], from: usize) -> (r: usize)
    requires
        from <= s@.len(),
    ensures
        r == spec_find_ws(s@, from as int),
{
    let n = s.len();
    let mut i = from;
    loop
        invariant
            from <= i <= n,
            n == s@.len(),
            spec_find_ws(s@, from as int) == spec_find_ws(s@, i as int),
        decreases n - i,
    {
        if i >= n {
            return n;
        }
        if s[i] == SP || s[i] == HTAB {
            return i;
        }
        i = i + 1;
    }
}

/// Copy of `s[lo..hi]` as a fresh vector.
pub fn subvec(s: &[u8], lo: usize, hi: usize) -> (v: Vec<u8>)
    requires
        lo <= hi <= s@.len(),
    ensures
        v@ == s@.subrange(lo as int, hi as int),
{
    let mut v: Vec<u8> = Vec::new();
    let mut i = lo;
    while i < hi
        invariant
            lo <= i <= hi <= s@.len(),
            v@ == s@.subrange(lo as int, i as int),
        decreases hi - i,
    {
        v.push(s[i]);
        i = i + 1;
        assert(v@ =~= s@.subrange(lo as int, i as int));
    }
    v
}

pub fn bytes_eq(a: &[u8], b: &[u8]) -> (r: bool)
    ensures
        r == (a@ == b@),
{
    if a.len() != b.len() {
        assert(a@ != b@);
        return false;
    }
    let n = a.len();
    let mut i: usize = 0;
    while i < n
        invariant
            0 <= i <= n,
            n == a@.len() == b@.len(),
            forall|j: int| 0 <= j < i ==> a@[j] == b@[j],
        decreases n - i,
    {
        if a[i] != b[i] {
            assert(a@ != b@);
            return false;
        }
        i = i + 1;
    }
    proof {
        assert(a@ =~= b@);
    }
    true
}

pub open spec fn has_prefix(s: Seq<u8>, p: Seq<u8>) -> bool {
    p.len() <= s.len() && s.take(p.len() as int) == p
}

pub fn starts_with(s: &[u8], p: &[u8]) -> (r: bool)
    ensures
        r == has_prefix(s@, p@),
{
    if p.len() > s.len() {
        return false;
    }
    let n = p.len();
    let mut i: usize = 0;
    while i < n
        invariant
            0 <= i <= n,
            n == p@.len() <= s@.len(),
            forall|j: int| 0 <= j < i ==> s@[j] == p@[j],
        decreases n - i,
    {
        if s[i] != p[i] {
            assert(s@.take(p@.len() as int)[i as int] != p@[i as int]);
            return false;
        }
        i = i + 1;
    }
    proof {
        assert(s@.take(p@.len() as int) =~= p@);
    }
    true
}

/// First index at or after `i` holding a non-whitespace byte, or `s.len()`.
pub open spec fn ws_run_end(s: Seq<u8>, i: int) -> int
    decreases s.len() - i,
{
    if i < 0 {
        ws_run_end(s, 0)
    } else if i >= s.len() {
        s.len() as int
    } else if is_ws_byte(s[i]) {
        ws_run_end(s, i + 1)
    } else {
        i
    }
}

/// Last index `b` with `i <= b` such that every byte of `s[b..i]` is
/// whitespace, walking backwards from `i`.
pub open spec fn ws_back_start(s: Seq<u8>, i: int) -> int
    decreases i,
{
    if i <= 0 {
        0
    } else if i > s.len() {
        ws_back_start(s, s.len() as int)
    } else if is_ws_byte(s[i - 1]) {
        ws_back_start(s, i - 1)
    } else {
        i
    }
}

/// `s` with leading and trailing ASCII whitespace removed.
pub open spec fn spec_trim(s: Seq<u8>) -> Seq<u8> {
    let a = ws_run_end(s, 0);
    let b = ws_back_start(s, s.len() as int);
    if a >= b {
        Seq::<u8>::empty()
    } else {
        s.subrange(a, b)
    }
}

/// A sequence is already trimmed: empty, or no whitespace at either end.
pub open spec fn is_trimmed(s: Seq<u8>) -> bool {
    s.len() == 0 || (!is_ws_byte(s[0]) && !is_ws_byte(s[s.len() - 1]))
}

pub proof fn lemma_trim_of_trimmed(s: Seq<u8>)
    requires
        is_trimmed(s),
    ensures
        spec_trim(s) == s,
{
    if s.len() == 0 {
        assert(spec_trim(s) =~= s);
    } else {
        assert(ws_run_end(s, 0) == 0);
        assert(ws_back_start(s, s.len() as int) == s.len());
        assert(spec_trim(s) =~= s);
    }
}

pub fn trim(s: &[u8]) -> (v: Vec<u8>)
    ensures
        v@ == spec_trim(s@),
{
    let n = s.len();
    let mut a: usize = 0;
    while a < n && (s[a] == SP || s[a] == HTAB)
        invariant
            0 <= a <= n,
            n == s@.len(),
            ws_run_end(s@, 0) == ws_run_end(s@, a as int),
        decreases n - a,
    {
        a = a + 1;
    }
    assert(ws_run_end(s@, 0) == a);
    let mut b: usize = n;
    while b > 0 && (s[b - 1] == SP || s[b - 1] == HTAB)
        invariant
            0 <= b <= n,
            n == s@.len(),
            ws_back_start(s@, n as int) == ws_back_start(s@, b as int),
        decreases b,
    {
        b = b - 1;
    }
    assert(ws_back_start(s@, n as int) == b);
    if a >= b {
        let v: Vec<u8> = Vec::new();
        assert(v@ =~= spec_trim(s@));
        v
    } else {
        subvec(s, a, b)
    }
}

/// Value of the digit string `s` read left to right starting from `acc`,
/// or nothing if some byte is not a digit.
pub open spec fn dec_val_acc(s: Seq<u8>, i: int, acc: int) -> Option<int>
    decreases s.len() - i,
{
    if i < 0 || i >= s.len() {
        Some(acc)
    } else if is_digit_byte(s[i]) {
        dec_val_acc(s, i + 1, acc * 10 + (s[i] - ZERO))
    } else {
        None
    }
}

/// The numeric value of decimal text, as `str::parse` for unsigned integers
/// reads it: optional leading `+`, then one or more digits.
pub open spec fn spec_parse_dec(s: Seq<u8>) -> Option<int> {
    if s.len() == 0 {
        None
    } else if s[0] == PLUS {
        if s.len() == 1 {
            None
        } else {
            dec_val_acc(s, 1, 0)
        }
    } else {
        dec_val_acc(s, 0, 0)
    }
}

pub proof fn lemma_dec_val_acc_grows(s: Seq<u8>, i: int, acc: int)
    requires
        0 <= i <= s.len(),
        acc >= 0,
        dec_val_acc(s, i, acc) is Some,
    ensures
        dec_val_acc(s, i, acc)->Some_0 >= acc,
    decreases s.len() - i,
{
    if i < s.len() && is_digit_byte(s[i]) {
        lemma_dec_val_acc_grows(s, i + 1, acc * 10 + (s[i] - ZERO));
    }
}

/// Decimal digits of the non-negative integer `n`, most significant first.
pub open spec fn dec_of(n: int) -> Seq<u8>
    decreases n,
{
    if n < 10 {
        seq![(48 + if n >= 0 { n } else { 0 }) as u8]
    } else {
        dec_of(n / 10) + seq![(48 + n % 10) as u8]
    }
}

pub proof fn lemma_dec_of_digits(n: int)
    requires
        n >= 0,
    ensures
        dec_of(n).len() >= 1,
        forall|i: int| 0 <= i < dec_of(n).len() ==> is_digit_byte(#[trigger] dec_of(n)[i]),
    decreases n,
{
    if n >= 10 {
        lemma_dec_of_digits(n / 10);
    }
}

pub proof fn lemma_dec_val_push(s: Seq<u8>, i: int, acc: int, d: u8)
    requires
        0 <= i <= s.len(),
        is_digit_byte(d),
        dec_val_acc(s, i, acc) is Some,
    ensures
        dec_val_acc(s + seq![d], i, acc) == Some(dec_val_acc(s, i, acc)->Some_0 * 10 + (d - ZERO)),
    decreases s.len() - i,
{
    if i < s.len() && is_digit_byte(s[i]) {
        lemma_dec_val_push(s, i + 1, acc * 10 + (s[i] - ZERO), d);
    } else {
        assert(dec_val_acc(s + seq![d], i, acc) == dec_val_acc(s + seq![d], i + 1, acc * 10 + (d - ZERO)));
    }
}

/// Decimal text never reads back as a negative value.
pub proof fn lemma_parse_dec_nonneg(s: Seq<u8>)
    ensures
        spec_parse_dec(s) is Some ==> spec_parse_dec(s)->Some_0 >= 0,
{
    if spec_parse_dec(s) is Some {
        if s[0] == PLUS {
            lemma_dec_val_acc_grows(s, 1, 0);
        } else {
            lemma_dec_val_acc_grows(s, 0, 0);
        }
    }
}

/// Printing then reading a non-negative integer gives it back.
pub proof fn lemma_dec_roundtrip(n: int)
    requires
        n >= 0,
    ensures
        dec_val_acc(dec_of(n), 0, 0) == Some(n),
        spec_parse_dec(dec_of(n)) == Some(n),
    decreases n,
{
    if n < 10 {
        assert(dec_val_acc(dec_of(n), 0, 0) == dec_val_acc(dec_of(n), 1, n));
    } else {
        lemma_dec_roundtrip(n / 10);
        lemma_dec_val_push(dec_of(n / 10), 0, 0, (48 + n % 10) as u8);
        assert(dec_of(n) == dec_of(n / 10) + seq![(48 + n % 10) as u8]);
    }
    lemma_dec_of_digits(n);
    assert(dec_of(n)[0] != PLUS);
}

pub fn u32_to_dec(n: u32) -> (v: Vec<u8>)
    ensures
        v@ == dec_of(n as int),
    decreases n,
{
    if n < 10 {
        let mut v: Vec<u8> = Vec::new();
        v.push(ZERO + n as u8);
        assert(v@ =~= dec_of(n as int));
        v
    } else {
        let mut v = u32_to_dec(n / 10);
        v.push(ZERO + (n % 10) as u8);
        assert(v@ =~= dec_of(n as int));
        v
    }
}

pub fn u64_to_dec(n: u64) -> (v: Vec<u8>)
    ensures
        v@ == dec_of(n as int),
    decreases n,
{
    if n < 10 {
        let mut v: Vec<u8> = Vec::new();
        v.push(ZERO + n as u8);
        assert(v@ =~= dec_of(n as int));
        v
    } else {
        let mut v = u64_to_dec(n / 10);
        v.push(ZERO + (n % 10) as u8);
        assert(v@ =~= dec_of(n as int));
        v
    }
}

/// Reads `s` as a `u32`, as `str::parse::<u32>` would: the numeric value if
/// it is well formed and fits, otherwise nothing.
pub fn parse_u32(s: &[u8]) -> (r: Option<u32>)
    ensures
        r == (match spec_parse_dec(s@) {
            Some(v) => if v <= u32::MAX { Some(v as u32) } else { None::<u32> },
            None => None::<u32>,
        }),
{
    let n = s.len();
    if n == 0 {
        return None;
    }
    let start: usize = if s[0] == PLUS {
        1
    } else {
        0
    };
    if start == 1 && n == 1 {
        return None;
    }
    let mut acc: u64 = 0;
    let mut i = start;
    assert(spec_parse_dec(s@) == dec_val_acc(s@, start as int, 0));
    while i < n
        invariant
            start <= i <= n,
            n == s@.len(),
            acc <= u32::MAX as u64,
            spec_parse_dec(s@) == dec_val_acc(s@, i as int, acc as int),
        decreases n - i,
    {
        let b = s[i];
        if b < ZERO || b > 57 {
            return None;
        }
        let d = (b - ZERO) as u64;
        let next = acc * 10 + d;
        if next > u32::MAX as u64 {
            proof {
                if dec_val_acc(s@, i + 1, next as int) is Some {
                    lemma_dec_val_acc_grows(s@, i + 1, next as int);
                }
            }
            return None;
        }
        acc = next;
        i = i + 1;
    }
    Some(acc as u32)
}

/// Reads `s` as a `u16`, as `str::parse::<u16>` would.
pub fn parse_u16(s: &[u8]) -> (r: Option<u16>)
    ensures
        r == (match spec_parse_dec(s@) {
            Some(v) => if v <= u16::MAX { Some(v as u16) } else { None::<u16> },
            None => None::<u16>,
        }),
{
    proof {
        lemma_parse_dec_nonneg(s@);
    }
    match parse_u32(s) {
        Some(v) => {
            if v <= 65535 {
                Some(v as u16)
            } else {
                None
            }
        },
        None => None,
    }
}

} // verus!

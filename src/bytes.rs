//! Byte-level building blocks shared by the request parser and the
//! response writer: the ASCII constants of the wire format, searching,
//! splitting, trimming, case folding and decimal numbers.
use vstd::prelude::*;
use vstd::string::*;

verus! {

broadcast use vstd::string::is_ascii_spec_bytes;

pub const CR: u8 = 13;

pub const LF: u8 = 10;

pub const SP: u8 = 32;

pub const HTAB: u8 = 9;

pub const COLON: u8 = 58;

pub const QUESTION: u8 = 63;

pub const AMPERSAND: u8 = 38;

pub const EQUALS: u8 = 61;

pub const SLASH: u8 = 47;

pub const COMMA: u8 = 44;

pub const DIGIT_ZERO: u8 = 48;

pub const DIGIT_NINE: u8 = 57;

/// The bytes of a string made of ASCII characters.
pub open spec fn ascii_bytes(s: Seq<char>) -> Seq<u8> {
    Seq::new(s.len(), |i: int| s[i] as u8)
}

/// The views of a sequence of byte vectors.
pub open spec fn views(v: Seq<Vec<u8>>) -> Seq<Seq<u8>> {
    v.map_values(|x: Vec<u8>| x@)
}

/// The bytes of an ASCII string literal.
pub fn literal(s: &str) -> (r: &[u8])
    requires
        is_ascii(s),
    ensures
        r@ == ascii_bytes(s@),
{
    let b = s.as_bytes();
    assert(b@ =~= ascii_bytes(s@));
    b
}

/// A copy of `s[lo..hi]`.
pub fn copy_range(s: &[u8], lo: usize, hi: usize) -> (r: Vec<u8>)
    requires
        lo <= hi <= s@.len(),
    ensures
        r@ == s@.subrange(lo as int, hi as int),
{
    let mut r: Vec<u8> = Vec::new();
    let mut i: usize = lo;
    while i < hi
        invariant
            lo <= i <= hi <= s@.len(),
            r@ == s@.subrange(lo as int, i as int),
        decreases hi - i,
    {
        r.push(s[i]);
        i = i + 1;
        assert(r@ =~= s@.subrange(lo as int, i as int));
    }
    r
}

/// Appends the bytes of `s` to `out`.
pub fn push_all(out: &mut Vec<u8>, s: &[u8])
    ensures
        final(out)@ == old(out)@ + s@,
{
    let mut i: usize = 0;
    while i < s.len()
        invariant
            i <= s@.len(),
            out@ == old(out)@ + s@.subrange(0, i as int),
        decreases s@.len() - i,
    {
        out.push(s[i]);
        i = i + 1;
        assert(out@ =~= old(out)@ + s@.subrange(0, i as int));
    }
    assert(s@.subrange(0, s@.len() as int) =~= s@);
}

/// Whether two byte strings are equal.
pub fn bytes_eq(a: &[u8], b: &[u8]) -> (r: bool)
    ensures
        r == (a@ == b@),
{
    if a.len() != b.len() {
        return false;
    }
    let mut i: usize = 0;
    while i < a.len()
        invariant
            a@.len() == b@.len(),
            i <= a@.len(),
            forall|j: int| 0 <= j < i ==> a@[j] == b@[j],
        decreases a@.len() - i,
    {
        if a[i] != b[i] {
            return false;
        }
        i = i + 1;
    }
    assert(a@ =~= b@);
    true
}

/// ASCII lower case of one byte; other bytes are unchanged.
pub open spec fn lower(b: u8) -> u8 {
    if 65 <= b <= 90 {
        (b + 32) as u8
    } else {
        b
    }
}

/// ASCII lower case of a byte string.
pub open spec fn lower_all(s: Seq<u8>) -> Seq<u8> {
    s.map_values(|b: u8| lower(b))
}

/// Whether two byte strings are equal up to ASCII case.
pub open spec fn same_ignoring_case(a: Seq<u8>, b: Seq<u8>) -> bool {
    lower_all(a) == lower_all(b)
}

pub fn lower_byte(b: u8) -> (r: u8)
    ensures
        r == lower(b),
{
    if 65 <= b && b <= 90 {
        b + 32
    } else {
        b
    }
}

/// Whether two byte strings are equal up to ASCII case.
pub fn eq_ignore_case(a: &[u8], b: &[u8]) -> (r: bool)
    ensures
        r == same_ignoring_case(a@, b@),
{
    if a.len() != b.len() {
        assert(lower_all(a@).len() != lower_all(b@).len());
        return false;
    }
    let mut i: usize = 0;
    while i < a.len()
        invariant
            a@.len() == b@.len(),
            i <= a@.len(),
            forall|j: int| 0 <= j < i ==> lower(a@[j]) == lower(b@[j]),
        decreases a@.len() - i,
    {
        if lower_byte(a[i]) != lower_byte(b[i]) {
            assert(lower_all(a@)[i as int] != lower_all(b@)[i as int]);
            return false;
        }
        i = i + 1;
    }
    assert(lower_all(a@) =~= lower_all(b@));
    true
}

/// The first index at or after `i` that holds `b`.
pub open spec fn find_byte_from(s: Seq<u8>, b: u8, i: nat) -> Option<nat>
    decreases s.len() - i,
{
    if i >= s.len() {
        None
    } else if s[i as int] == b {
        Some(i)
    } else {
        find_byte_from(s, b, i + 1)
    }
}

/// The first index of `b` in `s`.
pub open spec fn find_byte(s: Seq<u8>, b: u8) -> Option<nat> {
    find_byte_from(s, b, 0)
}

pub proof fn lemma_find_byte_from(s: Seq<u8>, b: u8, i: nat)
    ensures
        match find_byte_from(s, b, i) {
            Some(k) => i <= k < s.len() && s[k as int] == b && forall|j: int|
                i <= j < k ==> s[j] != b,
            None => forall|j: int| i <= j < s.len() ==> s[j] != b,
        },
    decreases s.len() - i,
{
    if i < s.len() && s[i as int] != b {
        lemma_find_byte_from(s, b, i + 1);
    }
}

/// A byte string without `b` has no index of it.
pub proof fn lemma_find_byte_none(s: Seq<u8>, b: u8, i: nat)
    requires
        forall|j: int| i <= j < s.len() ==> s[j] != b,
    ensures
        find_byte_from(s, b, i) is None,
    decreases s.len() - i,
{
    if i < s.len() {
        lemma_find_byte_none(s, b, i + 1);
    }
}

/// The first index of `b` is `k` when `s[k]` is `b` and nothing before it is.
pub proof fn lemma_find_byte_at(s: Seq<u8>, b: u8, i: nat, k: nat)
    requires
        i <= k < s.len(),
        s[k as int] == b,
        forall|j: int| i <= j < k ==> s[j] != b,
    ensures
        find_byte_from(s, b, i) == Some(k),
    decreases k - i,
{
    if i < k {
        lemma_find_byte_at(s, b, i + 1, k);
    }
}

/// The first index at or after `from` that holds `b`.
pub fn find_byte_exec(s: &[u8], b: u8, from: usize) -> (r: Option<usize>)
    ensures
        match r {
            Some(k) => find_byte_from(s@, b, from as nat) == Some(k as nat),
            None => find_byte_from(s@, b, from as nat) is None,
        },
{
    let mut i: usize = from;
    while i < s.len()
        invariant
            find_byte_from(s@, b, from as nat) == find_byte_from(s@, b, i as nat),
        decreases s@.len() - i,
    {
        if s[i] == b {
            return Some(i);
        }
        i = i + 1;
    }
    None
}

/// Whether a line terminator starts at `i`.
pub open spec fn crlf_at(s: Seq<u8>, i: int) -> bool {
    0 <= i && i + 1 < s.len() && s[i] == CR && s[i + 1] == LF
}

/// The first index at or after `i` where a line terminator starts.
pub open spec fn find_crlf_from(s: Seq<u8>, i: nat) -> Option<nat>
    decreases s.len() - i,
{
    if i + 1 >= s.len() {
        None
    } else if crlf_at(s, i as int) {
        Some(i)
    } else {
        find_crlf_from(s, i + 1)
    }
}

pub proof fn lemma_find_crlf_from(s: Seq<u8>, i: nat)
    ensures
        match find_crlf_from(s, i) {
            Some(k) => i <= k && crlf_at(s, k as int) && forall|j: int|
                i <= j < k ==> !crlf_at(s, j),
            None => forall|j: int| i <= j ==> !crlf_at(s, j),
        },
    decreases s.len() - i,
{
    if i + 1 < s.len() && !crlf_at(s, i as int) {
        lemma_find_crlf_from(s, i + 1);
    }
}

/// The first line terminator at `k` is found from `i` when none starts before it.
pub proof fn lemma_find_crlf_at(s: Seq<u8>, i: nat, k: nat)
    requires
        i <= k,
        crlf_at(s, k as int),
        forall|j: int| i <= j < k ==> !crlf_at(s, j),
    ensures
        find_crlf_from(s, i) == Some(k),
    decreases k - i,
{
    if i < k {
        lemma_find_crlf_at(s, i + 1, k);
    }
}

/// The search for a line terminator only reads the bytes up to the one found.
pub proof fn lemma_find_crlf_prefix(s: Seq<u8>, t: Seq<u8>, i: nat)
    requires
        find_crlf_from(s, i) is Some,
        find_crlf_from(s, i)->0 + 2 <= s.len(),
        s.len() <= t.len(),
        s == t.subrange(0, s.len() as int),
    ensures
        find_crlf_from(t, i) == find_crlf_from(s, i),
    decreases s.len() - i,
{
    if !crlf_at(s, i as int) {
        lemma_find_crlf_prefix(s, t, i + 1);
    }
}

/// The first index at or after `from` where a line terminator starts.
pub fn find_crlf(s: &[u8], from: usize) -> (r: Option<usize>)
    ensures
        match r {
            Some(k) => find_crlf_from(s@, from as nat) == Some(k as nat),
            None => find_crlf_from(s@, from as nat) is None,
        },
{
    let mut i: usize = from;
    while i < s.len() && i + 1 < s.len()
        invariant
            find_crlf_from(s@, from as nat) == find_crlf_from(s@, i as nat),
        decreases s@.len() - i,
    {
        if s[i] == CR && s[i + 1] == LF {
            return Some(i);
        }
        i = i + 1;
    }
    None
}

/// The pieces of `s` between occurrences of `sep`, empty pieces included:
/// a string with `n` separators has `n + 1` pieces.
pub open spec fn split_on(s: Seq<u8>, sep: u8) -> Seq<Seq<u8>>
    decreases s.len(),
{
    if s.len() == 0 {
        seq![Seq::empty()]
    } else {
        let init = split_on(s.drop_last(), sep);
        if s.last() == sep {
            init.push(Seq::empty())
        } else {
            init.update(init.len() - 1, init.last().push(s.last()))
        }
    }
}

pub proof fn lemma_split_on_nonempty(s: Seq<u8>, sep: u8)
    ensures
        split_on(s, sep).len() >= 1,
    decreases s.len(),
{
    if s.len() > 0 {
        lemma_split_on_nonempty(s.drop_last(), sep);
    }
}

/// A string without the separator is a single piece.
pub proof fn lemma_split_on_single(s: Seq<u8>, sep: u8)
    requires
        forall|i: int| 0 <= i < s.len() ==> s[i] != sep,
    ensures
        split_on(s, sep) == seq![s],
    decreases s.len(),
{
    if s.len() > 0 {
        lemma_split_on_single(s.drop_last(), sep);
        assert(s.drop_last().push(s.last()) =~= s);
        assert(split_on(s, sep) =~= seq![s]);
    } else {
        assert(s =~= Seq::<u8>::empty());
    }
}

/// Splitting around one separator joins the pieces of both sides.
pub proof fn lemma_split_on_join(a: Seq<u8>, b: Seq<u8>, sep: u8)
    ensures
        split_on(a + seq![sep] + b, sep) == split_on(a, sep) + split_on(b, sep),
    decreases b.len(),
{
    lemma_split_on_nonempty(a, sep);
    lemma_split_on_nonempty(b, sep);
    if b.len() == 0 {
        assert((a + seq![sep] + b).drop_last() =~= a);
        assert(split_on(b, sep) =~= seq![Seq::<u8>::empty()]);
        assert(split_on(a + seq![sep] + b, sep) =~= split_on(a, sep) + split_on(b, sep));
    } else {
        lemma_split_on_join(a, b.drop_last(), sep);
        assert((a + seq![sep] + b).drop_last() =~= a + seq![sep] + b.drop_last());
        lemma_split_on_nonempty(b.drop_last(), sep);
        let l = split_on(a, sep);
        let r0 = split_on(b.drop_last(), sep);
        if b.last() == sep {
            assert(split_on(a + seq![sep] + b, sep) =~= l + split_on(b, sep));
        } else {
            assert((l + r0).last() == r0.last());
            assert(split_on(a + seq![sep] + b, sep) =~= l + split_on(b, sep));
        }
    }
}

/// The pieces of `s` between occurrences of `sep`.
pub fn split_bytes(s: &[u8], sep: u8) -> (r: Vec<Vec<u8>>)
    ensures
        views(r@) == split_on(s@, sep),
{
    let mut pieces: Vec<Vec<u8>> = Vec::new();
    let mut current: Vec<u8> = Vec::new();
    let mut i: usize = 0;
    while i < s.len()
        invariant
            i <= s@.len(),
            views(pieces@).push(current@) == split_on(s@.subrange(0, i as int), sep),
        decreases s@.len() - i,
    {
        let ghost before = s@.subrange(0, i as int);
        let ghost pieces_before = pieces@;
        let ghost current_before = current@;
        assert(s@.subrange(0, i + 1).drop_last() =~= before);
        if s[i] == sep {
            pieces.push(current);
            current = Vec::new();
            assert(views(pieces@).push(current@) =~= split_on(before, sep).push(Seq::empty()));
        } else {
            current.push(s[i]);
            assert(views(pieces@).push(current@) =~= split_on(before, sep).update(
                split_on(before, sep).len() - 1,
                current_before.push(s[i as int]),
            ));
        }
        i = i + 1;
    }
    pieces.push(current);
    assert(s@.subrange(0, s@.len() as int) =~= s@);
    assert(views(pieces@) =~= split_on(s@, sep));
    pieces
}

/// Optional white space: a space or a horizontal tab.
pub open spec fn is_ows(b: u8) -> bool {
    b == SP || b == HTAB
}

/// `s` without its leading white space.
pub open spec fn trim_start(s: Seq<u8>) -> Seq<u8>
    decreases s.len(),
{
    if s.len() > 0 && is_ows(s[0]) {
        trim_start(s.drop_first())
    } else {
        s
    }
}

/// `s` without its trailing white space.
pub open spec fn trim_end(s: Seq<u8>) -> Seq<u8>
    decreases s.len(),
{
    if s.len() > 0 && is_ows(s.last()) {
        trim_end(s.drop_last())
    } else {
        s
    }
}

/// `s` without white space at either end.
pub open spec fn trim(s: Seq<u8>) -> Seq<u8> {
    trim_end(trim_start(s))
}

pub proof fn lemma_trim_start_at(s: Seq<u8>, i: int)
    requires
        0 <= i <= s.len(),
        forall|j: int| 0 <= j < i ==> is_ows(s[j]),
        i == s.len() || !is_ows(s[i]),
    ensures
        trim_start(s) == s.subrange(i, s.len() as int),
    decreases i,
{
    if i > 0 {
        lemma_trim_start_at(s.drop_first(), i - 1);
        assert(s.drop_first().subrange(i - 1, s.len() - 1) =~= s.subrange(i, s.len() as int));
    } else {
        assert(s.subrange(0, s.len() as int) =~= s);
    }
}

pub proof fn lemma_trim_end_at(s: Seq<u8>, k: int)
    requires
        0 <= k <= s.len(),
        forall|j: int| k <= j < s.len() ==> is_ows(s[j]),
        k == 0 || !is_ows(s[k - 1]),
    ensures
        trim_end(s) == s.subrange(0, k),
    decreases s.len() - k,
{
    if k < s.len() {
        lemma_trim_end_at(s.drop_last(), k);
        assert(s.drop_last().subrange(0, k) =~= s.subrange(0, k));
    } else {
        assert(s.subrange(0, k) =~= s);
    }
}

/// A copy of `s[lo..hi]` without white space at either end.
pub fn trim_range(s: &[u8], lo: usize, hi: usize) -> (r: Vec<u8>)
    requires
        lo <= hi <= s@.len(),
    ensures
        r@ == trim(s@.subrange(lo as int, hi as int)),
{
    let ghost t = s@.subrange(lo as int, hi as int);
    let mut a: usize = lo;
    while a < hi && (s[a] == SP || s[a] == HTAB)
        invariant
            lo <= a <= hi <= s@.len(),
            forall|j: int| lo <= j < a ==> is_ows(s@[j]),
        decreases hi - a,
    {
        a = a + 1;
    }
    proof {
        lemma_trim_start_at(t, a - lo);
        assert(t.subrange(a - lo, t.len() as int) =~= s@.subrange(a as int, hi as int));
    }
    let mut b: usize = hi;
    while b > a && (s[b - 1] == SP || s[b - 1] == HTAB)
        invariant
            lo <= a <= b <= hi <= s@.len(),
            forall|j: int| b <= j < hi ==> is_ows(s@[j]),
        decreases b - a,
    {
        b = b - 1;
    }
    proof {
        let u = s@.subrange(a as int, hi as int);
        lemma_trim_end_at(u, b - a);
        assert(u.subrange(0, b - a) =~= s@.subrange(a as int, b as int));
    }
    copy_range(s, a, b)
}

pub open spec fn is_digit(b: u8) -> bool {
    DIGIT_ZERO <= b <= DIGIT_NINE
}

/// The number that a string of decimal digits writes.
pub open spec fn digits_value(s: Seq<u8>) -> nat
    decreases s.len(),
{
    if s.len() == 0 {
        0
    } else {
        digits_value(s.drop_last()) * 10 + (s.last() - DIGIT_ZERO) as nat
    }
}

/// The number that `s` writes in decimal, when `s` is one or more digits.
pub open spec fn decimal_value(s: Seq<u8>) -> Option<nat> {
    if s.len() > 0 && forall|i: int| 0 <= i < s.len() ==> is_digit(#[trigger] s[i]) {
        Some(digits_value(s))
    } else {
        None
    }
}

/// `n` written in decimal, without leading zeros.
pub open spec fn decimal_repr(n: nat) -> Seq<u8>
    decreases n,
{
    if n < 10 {
        seq![(DIGIT_ZERO + n) as u8]
    } else {
        decimal_repr(n / 10).push((DIGIT_ZERO + n % 10) as u8)
    }
}

pub proof fn lemma_decimal_repr_digits(n: nat)
    ensures
        decimal_repr(n).len() > 0,
        forall|i: int| 0 <= i < decimal_repr(n).len() ==> is_digit(#[trigger] decimal_repr(n)[i]),
        digits_value(decimal_repr(n)) == n,
    decreases n,
{
    let r = decimal_repr(n);
    if n >= 10 {
        lemma_decimal_repr_digits(n / 10);
        assert(r.drop_last() =~= decimal_repr(n / 10));
        assert((n / 10) * 10 + n % 10 == n) by (nonlinear_arith);
        assert(r.last() == (DIGIT_ZERO + n % 10) as u8);
        assert((r.last() - DIGIT_ZERO) as nat == n % 10);
        assert(digits_value(r) == digits_value(r.drop_last()) * 10 + (r.last() - DIGIT_ZERO) as nat);
    } else {
        assert(r.drop_last() =~= Seq::<u8>::empty());
        assert(digits_value(r) == digits_value(r.drop_last()) * 10 + (r.last() - DIGIT_ZERO) as nat);
    }
}

/// Reading back a number written in decimal gives the number.
pub proof fn lemma_decimal_round_trip(n: nat)
    ensures
        decimal_value(decimal_repr(n)) == Some(n),
{
    lemma_decimal_repr_digits(n);
}

pub proof fn lemma_digits_value_prefix(s: Seq<u8>, i: int)
    requires
        0 <= i <= s.len(),
    ensures
        digits_value(s.subrange(0, i)) <= digits_value(s),
    decreases s.len() - i,
{
    if i < s.len() {
        lemma_digits_value_prefix(s, i + 1);
        let t = s.subrange(0, i + 1);
        assert(t.drop_last() =~= s.subrange(0, i));
        let x = digits_value(s.subrange(0, i));
        let d = (t.last() - DIGIT_ZERO) as nat;
        assert(x <= x * 10 + d) by (nonlinear_arith);
    } else {
        assert(s.subrange(0, i) =~= s);
    }
}

/// What a decimal field says of a length that may not exceed a bound.
pub enum Decimal {
    /// The field is not a string of one or more digits.
    NotANumber,
    /// The number, which is at most the bound.
    Within(usize),
    /// The number exceeds the bound.
    Beyond,
}

/// Reads `s` as a decimal number, reporting whether it exceeds `bound`.
pub fn parse_decimal(s: &[u8], bound: usize) -> (r: Decimal)
    ensures
        match r {
            Decimal::NotANumber => decimal_value(s@) is None,
            Decimal::Within(n) => decimal_value(s@) == Some(n as nat) && n <= bound,
            Decimal::Beyond => decimal_value(s@) is Some && decimal_value(s@)->0 > bound,
        },
{
    if s.len() == 0 {
        return Decimal::NotANumber;
    }
    let mut i: usize = 0;
    while i < s.len()
        invariant
            i <= s@.len(),
            forall|j: int| 0 <= j < i ==> is_digit(s@[j]),
        decreases s@.len() - i,
    {
        if s[i] < DIGIT_ZERO || s[i] > DIGIT_NINE {
            assert(!is_digit(s@[i as int]));
            return Decimal::NotANumber;
        }
        i = i + 1;
    }
    let mut value: usize = 0;
    let mut k: usize = 0;
    while k < s.len()
        invariant
            k <= s@.len(),
            forall|j: int| 0 <= j < s@.len() ==> is_digit(s@[j]),
            value as nat == digits_value(s@.subrange(0, k as int)),
            value <= bound,
        decreases s@.len() - k,
    {
        let d: usize = (s[k] - DIGIT_ZERO) as usize;
        assert(s@.subrange(0, k + 1).drop_last() =~= s@.subrange(0, k as int));
        if d > bound || value > (bound - d) / 10 {
            proof {
                if d <= bound {
                    let q = (bound - d) as int;
                    assert(value * 10 + d > bound) by (nonlinear_arith)
                        requires
                            value > q / 10,
                            q == bound - d,
                            q >= 0,
                    ;
                }
                lemma_digits_value_prefix(s@, k + 1);
            }
            return Decimal::Beyond;
        }
        value = value * 10 + d;
        k = k + 1;
    }
    assert(s@.subrange(0, s@.len() as int) =~= s@);
    Decimal::Within(value)
}

/// `n` written in decimal.
pub fn decimal_bytes(n: usize) -> (r: Vec<u8>)
    ensures
        r@ == decimal_repr(n as nat),
    decreases n,
{
    if n < 10 {
        let mut r: Vec<u8> = Vec::new();
        r.push(DIGIT_ZERO + n as u8);
        assert(r@ =~= decimal_repr(n as nat));
        r
    } else {
        let mut r = decimal_bytes(n / 10);
        r.push(DIGIT_ZERO + (n % 10) as u8);
        r
    }
}

} // verus!

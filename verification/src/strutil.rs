//! Character-sequence utilities: decimal digits, numeric parsing, and
//! lexicographic comparison, with exec functions proved against spec
//! functions over `Seq<char>`.

use vstd::prelude::*;

verus! {

// ---------------------------------------------------------------------------
// Decimal digits
// ---------------------------------------------------------------------------

pub open spec fn is_digit(c: char) -> bool {
    48 <= (c as u32) && (c as u32) <= 57
}

pub open spec fn digit_of(d: int) -> char {
    if d == 0 {
        '0'
    } else if d == 1 {
        '1'
    } else if d == 2 {
        '2'
    } else if d == 3 {
        '3'
    } else if d == 4 {
        '4'
    } else if d == 5 {
        '5'
    } else if d == 6 {
        '6'
    } else if d == 7 {
        '7'
    } else if d == 8 {
        '8'
    } else {
        '9'
    }
}

pub open spec fn digit_val(c: char) -> int {
    (c as u32) as int - 48
}

/// The decimal representation of `n`, most significant digit first,
/// with no leading zeros (a single `'0'` for zero).
pub open spec fn dec_rep(n: nat) -> Seq<char>
    decreases n,
{
    if n < 10 {
        seq![digit_of(n as int)]
    } else {
        dec_rep(n / 10) + seq![digit_of((n % 10) as int)]
    }
}

pub proof fn lemma_dec_rep_digits(n: nat)
    ensures
        dec_rep(n).len() >= 1,
        forall|i: int| 0 <= i < dec_rep(n).len() ==> is_digit(#[trigger] dec_rep(n)[i]),
    decreases n,
{
    if n >= 10 {
        lemma_dec_rep_digits(n / 10);
    }
}

/// The numeric value of a digit sequence, read most significant first.
pub open spec fn dec_val(s: Seq<char>) -> int
    decreases s.len(),
{
    if s.len() == 0 {
        0
    } else {
        dec_val(s.drop_last()) * 10 + digit_val(s.last())
    }
}

pub proof fn lemma_digit_roundtrip(d: int)
    requires
        0 <= d < 10,
    ensures
        digit_val(digit_of(d)) == d,
        is_digit(digit_of(d)),
{
}

pub proof fn lemma_dec_val_of_dec_rep(n: nat)
    ensures
        dec_val(dec_rep(n)) == n,
    decreases n,
{
    if n < 10 {
        lemma_digit_roundtrip(n as int);
        let s = dec_rep(n);
        assert(s == seq![digit_of(n as int)]);
        assert(s.len() == 1);
        assert(s.drop_last() =~= Seq::<char>::empty());
        assert(dec_val(s.drop_last()) == 0);
        assert(s.last() == digit_of(n as int));
        assert(dec_val(s) == dec_val(s.drop_last()) * 10 + digit_val(s.last()));
    } else {
        lemma_dec_val_of_dec_rep(n / 10);
        lemma_digit_roundtrip((n % 10) as int);
        assert(dec_rep(n).drop_last() =~= dec_rep(n / 10));
        assert(dec_rep(n).last() == digit_of((n % 10) as int));
        assert((n as int) / 10 * 10 + (n as int) % 10 == n as int) by (nonlinear_arith);
    }
}

/// Exec form of `digit_of`.
pub fn digit_char(d: u64) -> (c: char)
    requires
        d < 10,
    ensures
        c == digit_of(d as int),
{
    match d {
        0 => '0',
        1 => '1',
        2 => '2',
        3 => '3',
        4 => '4',
        5 => '5',
        6 => '6',
        7 => '7',
        8 => '8',
        _ => '9',
    }
}

/// Renders `n` in decimal, most significant digit first.
pub fn u64_dec_chars(n: u64) -> (v: Vec<char>)
    ensures
        v@ == dec_rep(n as nat),
{
    if n == 0 {
        let mut digits: Vec<char> = Vec::new();
        digits.push('0');
        proof {
            assert(digits@ =~= dec_rep(0));
        }
        return digits;
    }
    let mut digits: Vec<char> = Vec::new();
    let mut m: u64 = n;
    proof {
        assert(dec_rep(n as nat) =~= dec_rep(n as nat) + digits@);
    }
    while m > 0
        invariant
            m > 0 ==> dec_rep(n as nat) == dec_rep(m as nat) + digits@,
            m == 0 ==> dec_rep(n as nat) == digits@,
        decreases m,
    {
        let ghost pre = digits@;
        let d: u64 = m % 10;
        let c = digit_char(d);
        digits.insert(0, c);
        proof {
            assert(digits@ =~= seq![c] + pre);
        }
        let next: u64 = m / 10;
        proof {
            if m < 10 {
                assert(dec_rep(m as nat) =~= seq![digit_of(m as int)]);
                assert(dec_rep(n as nat) =~= digits@);
            } else {
                assert(dec_rep(m as nat) == dec_rep((m as nat) / 10) + seq![
                    digit_of(((m as nat) % 10) as int),
                ]);
                assert((m as nat) / 10 == next as nat);
                assert(dec_rep(n as nat) =~= dec_rep(next as nat) + digits@);
            }
        }
        m = next;
    }
    digits
}

// ---------------------------------------------------------------------------
// Conversion between `&str` and `Vec<char>`
// ---------------------------------------------------------------------------

/// Collects the characters of `s` into a vector, using the character
/// accessors that vstd specifies.
pub fn str_to_chars(s: &str) -> (v: Vec<char>)
    ensures
        v@ == s@,
{
    let n: usize = s.unicode_len();
    let mut v: Vec<char> = Vec::new();
    let mut i: usize = 0;
    while i < n
        invariant
            n == s@.len(),
            i <= n,
            v@ == s@.subrange(0, i as int),
        decreases n - i,
    {
        let c = s.get_char(i);
        v.push(c);
        proof {
            assert(v@ =~= s@.subrange(0, i + 1 as int));
        }
        i = i + 1;
    }
    proof {
        assert(v@ =~= s@);
    }
    v
}

/// Relies on `String`'s `FromIterator<char>` impl: collecting characters
/// yields the string of exactly those characters in order.
#[verifier::external_body]
pub fn chars_to_string(v: &Vec<char>) -> (s: String)
    ensures
        s@ == v@,
{
    v.iter().collect()
}

/// Copies the range `[from, to)` of `v` out as a `String`.
pub fn chars_range_to_string(v: &Vec<char>, from: usize, to: usize) -> (s: String)
    requires
        from <= to <= v@.len(),
    ensures
        s@ == v@.subrange(from as int, to as int),
{
    let mut out: Vec<char> = Vec::new();
    let mut i: usize = from;
    while i < to
        invariant
            from <= i <= to <= v@.len(),
            out@ == v@.subrange(from as int, i as int),
        decreases to - i,
    {
        out.push(v[i]);
        proof {
            assert(out@ =~= v@.subrange(from as int, i + 1 as int));
        }
        i = i + 1;
    }
    chars_to_string(&out)
}

// ---------------------------------------------------------------------------
// Comparison and searching
// ---------------------------------------------------------------------------

/// Character-wise equality of two strings.
pub fn str_eq(a: &str, b: &str) -> (r: bool)
    ensures
        r == (a@ == b@),
{
    let na: usize = a.unicode_len();
    let nb: usize = b.unicode_len();
    if na != nb {
        proof {
            assert(a@ != b@);
        }
        return false;
    }
    let mut i: usize = 0;
    while i < na
        invariant
            na == a@.len(),
            na == b@.len(),
            i <= na,
            forall|j: int| 0 <= j < i ==> a@[j] == b@[j],
        decreases na - i,
    {
        if a.get_char(i) != b.get_char(i) {
            return false;
        }
        i = i + 1;
    }
    proof {
        assert(a@ =~= b@);
    }
    true
}

pub open spec fn spec_starts_with(s: Seq<char>, p: Seq<char>) -> bool {
    s.len() >= p.len() && s.subrange(0, p.len() as int) == p
}

/// Whether `s` begins with `p`, character for character.
pub fn starts_with(s: &str, p: &str) -> (r: bool)
    ensures
        r == spec_starts_with(s@, p@),
{
    let ns: usize = s.unicode_len();
    let np: usize = p.unicode_len();
    if ns < np {
        return false;
    }
    let mut i: usize = 0;
    while i < np
        invariant
            ns == s@.len(),
            np == p@.len(),
            np <= ns,
            i <= np,
            forall|j: int| 0 <= j < i ==> s@[j] == p@[j],
        decreases np - i,
    {
        if s.get_char(i) != p.get_char(i) {
            proof {
                assert(s@.subrange(0, np as int)[i as int] != p@[i as int]);
            }
            return false;
        }
        i = i + 1;
    }
    proof {
        assert(s@.subrange(0, np as int) =~= p@);
    }
    true
}

pub open spec fn matches_at(s: Seq<char>, p: Seq<char>, i: int) -> bool {
    0 <= i && i + p.len() <= s.len() && s.subrange(i, i + p.len()) == p
}

pub open spec fn spec_contains(s: Seq<char>, p: Seq<char>) -> bool {
    exists|i: int| matches_at(s, p, i)
}

/// Whether `p` occurs in `s` as a contiguous subsequence.
pub fn contains_sub(s: &str, p: &str) -> (r: bool)
    ensures
        r == spec_contains(s@, p@),
{
    let sv = str_to_chars(s);
    let pv = str_to_chars(p);
    let ns: usize = sv.len();
    let np: usize = pv.len();
    if np > ns {
        return false;
    }
    let mut i: usize = 0;
    while i <= ns - np
        invariant
            sv@ == s@,
            pv@ == p@,
            ns == s@.len(),
            np == p@.len(),
            np <= ns,
            i <= ns - np + 1,
            forall|k: int| 0 <= k < i ==> !matches_at(s@, p@, k),
        decreases ns - np - i + 1,
    {
        let mut j: usize = 0;
        let mut ok: bool = true;
        while j < np
            invariant
                sv@ == s@,
                pv@ == p@,
                ns == s@.len(),
                np == p@.len(),
                np <= ns,
                i <= ns - np,
                j <= np,
                ok == (forall|t: int| 0 <= t < j ==> s@[i + t] == p@[t]),
            decreases np - j,
        {
            if sv[i + j] != pv[j] {
                ok = false;
                j = np;
            } else {
                j = j + 1;
            }
        }
        if ok {
            proof {
                assert(s@.subrange(i as int, i + np as int) =~= p@);
                assert(matches_at(s@, p@, i as int));
            }
            return true;
        }
        proof {
            if matches_at(s@, p@, i as int) {
                assert(forall|t: int|
                    0 <= t < np ==> #[trigger] s@.subrange(i as int, i + np as int)[t] == s@[i
                        + t]);
                assert(false);
            }
        }
        i = i + 1;
    }
    proof {
        assert(forall|k: int| 0 <= k <= ns - np ==> !matches_at(s@, p@, k));
        assert forall|k: int| !matches_at(s@, p@, k) by {
            if matches_at(s@, p@, k) {
                assert(0 <= k <= ns - np);
            }
        }
    }
    false
}

// ---------------------------------------------------------------------------
// Lexicographic order on character sequences
// ---------------------------------------------------------------------------

/// Lexicographic "less than or equal" by character scalar value; this is
/// the order `String` comparison gives, since UTF-8 byte order agrees with
/// code-point order.
pub open spec fn lex_le(a: Seq<char>, b: Seq<char>) -> bool
    decreases a.len(),
{
    if a.len() == 0 {
        true
    } else if b.len() == 0 {
        false
    } else if a[0] != b[0] {
        (a[0] as u32) < (b[0] as u32)
    } else {
        lex_le(a.skip(1), b.skip(1))
    }
}

pub proof fn lemma_lex_le_total(a: Seq<char>, b: Seq<char>)
    ensures
        lex_le(a, b) || lex_le(b, a),
    decreases a.len(),
{
    if a.len() > 0 && b.len() > 0 {
        if a[0] == b[0] {
            lemma_lex_le_total(a.skip(1), b.skip(1));
        } else {
            vstd::utf8::char_u32_cast(a[0], a[0] as u32);
            vstd::utf8::char_u32_cast(b[0], b[0] as u32);
            assert((a[0] as u32) != (b[0] as u32));
        }
    }
}

pub proof fn lemma_lex_le_antisym(a: Seq<char>, b: Seq<char>)
    requires
        lex_le(a, b),
        lex_le(b, a),
    ensures
        a == b,
    decreases a.len(),
{
    if a.len() == 0 {
        assert(b.len() == 0);
        assert(a =~= b);
    } else {
        assert(b.len() > 0);
        assert(a[0] == b[0]);
        lemma_lex_le_antisym(a.skip(1), b.skip(1));
        assert(a =~= seq![a[0]] + a.skip(1));
        assert(b =~= seq![b[0]] + b.skip(1));
    }
}

pub proof fn lemma_lex_le_trans(a: Seq<char>, b: Seq<char>, c: Seq<char>)
    requires
        lex_le(a, b),
        lex_le(b, c),
    ensures
        lex_le(a, c),
    decreases a.len(),
{
    if a.len() > 0 && b.len() > 0 && c.len() > 0 {
        if a[0] == b[0] && b[0] == c[0] {
            lemma_lex_le_trans(a.skip(1), b.skip(1), c.skip(1));
        }
    }
}

/// Exec comparison deciding `lex_le` over the views.
pub fn lex_le_chars(a: &Vec<char>, b: &Vec<char>) -> (r: bool)
    ensures
        r == lex_le(a@, b@),
{
    let na: usize = a.len();
    let nb: usize = b.len();
    let mut i: usize = 0;
    proof {
        assert(a@.skip(0) =~= a@);
        assert(b@.skip(0) =~= b@);
    }
    loop
        invariant
            na == a@.len(),
            nb == b@.len(),
            i <= na,
            i <= nb,
            lex_le(a@, b@) == lex_le(a@.skip(i as int), b@.skip(i as int)),
        decreases na - i,
    {
        if i == na {
            proof {
                assert(a@.skip(i as int).len() == 0);
            }
            return true;
        }
        if i == nb {
            proof {
                assert(b@.skip(i as int).len() == 0);
                assert(a@.skip(i as int).len() > 0);
            }
            return false;
        }
        let ca = a[i];
        let cb = b[i];
        proof {
            assert(a@.skip(i as int)[0] == a@[i as int]);
            assert(b@.skip(i as int)[0] == b@[i as int]);
            assert(a@.skip(i as int).skip(1) =~= a@.skip(i + 1));
            assert(b@.skip(i as int).skip(1) =~= b@.skip(i + 1));
        }
        if ca != cb {
            return (ca as u32) < (cb as u32);
        }
        i = i + 1;
    }
}

/// Exec comparison of two strings in lexicographic order.
pub fn lex_le_str(a: &str, b: &str) -> (r: bool)
    ensures
        r == lex_le(a@, b@),
{
    let av = str_to_chars(a);
    let bv = str_to_chars(b);
    lex_le_chars(&av, &bv)
}

// ---------------------------------------------------------------------------
// Numeric parsing
// ---------------------------------------------------------------------------

pub open spec fn all_digits(s: Seq<char>) -> bool {
    forall|i: int| 0 <= i < s.len() ==> is_digit(#[trigger] s[i])
}

/// The value a digit string denotes, or nothing when the string is empty
/// or holds a non-digit.
pub open spec fn spec_parse_u16(s: Seq<char>) -> Option<u16> {
    if s.len() > 0 && all_digits(s) && dec_val(s) <= 0xffff {
        Some(dec_val(s) as u16)
    } else {
        None
    }
}

pub proof fn lemma_dec_val_take_step(s: Seq<char>, i: int)
    requires
        0 <= i < s.len(),
    ensures
        dec_val(s.take(i + 1)) == dec_val(s.take(i)) * 10 + digit_val(s[i]),
{
    assert(s.take(i + 1).drop_last() =~= s.take(i));
    assert(s.take(i + 1).last() == s[i]);
}

pub proof fn lemma_dec_val_grows(s: Seq<char>, i: int)
    requires
        0 <= i < s.len(),
        all_digits(s),
        dec_val(s.take(i)) > 0xffff,
    ensures
        dec_val(s.take(i + 1)) > 0xffff,
{
    lemma_dec_val_take_step(s, i);
    assert(digit_val(s[i]) >= 0);
}

/// Parses a digit string as a `u16`; mirrors `spec_parse_u16` exactly,
/// rejecting empty input, non-digits and overflow.
pub fn parse_u16_chars(v: &Vec<char>) -> (r: Option<u16>)
    ensures
        r == spec_parse_u16(v@),
{
    let n: usize = v.len();
    if n == 0 {
        return None;
    }
    let mut acc: u32 = 0;
    let mut over: bool = false;
    let mut i: usize = 0;
    proof {
        assert(v@.take(0) =~= Seq::<char>::empty());
    }
    while i < n
        invariant
            n == v@.len(),
            i <= n,
            forall|j: int| 0 <= j < i ==> is_digit(#[trigger] v@[j]),
            !over ==> acc == dec_val(v@.take(i as int)) && acc <= 0xffff,
            over ==> dec_val(v@.take(i as int)) > 0xffff,
        decreases n - i,
    {
        let c = v[i];
        let u: u32 = c as u32;
        if u < 48 || u > 57 {
            proof {
                assert(!is_digit(v@[i as int]));
            }
            return None;
        }
        proof {
            lemma_dec_val_take_step(v@, i as int);
        }
        if over {
            proof {
                lemma_dec_val_grows(v@.take(i + 1), i as int);
                assert(v@.take(i + 1).take(i as int) =~= v@.take(i as int));
                assert(v@.take(i + 1).take(i + 1) =~= v@.take(i + 1));
                assert(dec_val(v@.take(i + 1)) == dec_val(v@.take(i as int)) * 10 + digit_val(
                    v@[i as int],
                ));
                assert(dec_val(v@.take(i as int)) * 10 > 0xffff * 10) by (nonlinear_arith)
                    requires
                        dec_val(v@.take(i as int)) > 0xffff,
                ;
            }
        } else {
            let d: u32 = u - 48;
            let next: u32 = acc * 10 + d;
            if next > 0xffff {
                over = true;
            } else {
                acc = next;
            }
        }
        i = i + 1;
    }
    proof {
        assert(v@.take(n as int) =~= v@);
    }
    if over {
        None
    } else {
        Some(acc as u16)
    }
}

/// The value a digit string denotes as a `u64`, or nothing when the
/// string is empty, holds a non-digit, or overflows.
pub open spec fn spec_parse_u64(s: Seq<char>) -> Option<u64> {
    if s.len() > 0 && all_digits(s) && dec_val(s) <= u64::MAX {
        Some(dec_val(s) as u64)
    } else {
        None
    }
}

/// Parses a digit string as a `u64`; mirrors `spec_parse_u64` exactly.
pub fn parse_u64_chars(v: &Vec<char>) -> (r: Option<u64>)
    ensures
        r == spec_parse_u64(v@),
{
    let n: usize = v.len();
    if n == 0 {
        return None;
    }
    let mut acc: u64 = 0;
    let mut over: bool = false;
    let mut i: usize = 0;
    proof {
        assert(v@.take(0) =~= Seq::<char>::empty());
    }
    while i < n
        invariant
            n == v@.len(),
            i <= n,
            forall|j: int| 0 <= j < i ==> is_digit(#[trigger] v@[j]),
            !over ==> acc == dec_val(v@.take(i as int)) && acc <= u64::MAX,
            over ==> dec_val(v@.take(i as int)) > u64::MAX,
        decreases n - i,
    {
        let c = v[i];
        let u: u32 = c as u32;
        if u < 48 || u > 57 {
            proof {
                assert(!is_digit(v@[i as int]));
            }
            return None;
        }
        proof {
            lemma_dec_val_take_step(v@, i as int);
        }
        if over {
            proof {
                assert(dec_val(v@.take(i as int)) * 10 > u64::MAX as int * 10) by (nonlinear_arith)
                    requires
                        dec_val(v@.take(i as int)) > u64::MAX as int,
                ;
            }
        } else {
            let d: u64 = (u - 48) as u64;
            let next: u128 = (acc as u128) * 10 + (d as u128);
            if next > u64::MAX as u128 {
                over = true;
            } else {
                acc = next as u64;
            }
        }
        i = i + 1;
    }
    proof {
        assert(v@.take(n as int) =~= v@);
    }
    if over {
        None
    } else {
        Some(acc)
    }
}

/// Copies the range `[from, to)` of `v` into a fresh vector.
pub fn copy_range(v: &Vec<char>, from: usize, to: usize) -> (r: Vec<char>)
    requires
        from <= to <= v@.len(),
    ensures
        r@ == v@.subrange(from as int, to as int),
{
    let mut out: Vec<char> = Vec::new();
    let mut i: usize = from;
    while i < to
        invariant
            from <= i <= to <= v@.len(),
            out@ == v@.subrange(from as int, i as int),
        decreases to - i,
    {
        out.push(v[i]);
        proof {
            assert(out@ =~= v@.subrange(from as int, i + 1 as int));
        }
        i = i + 1;
    }
    out
}

/// Appends all of `src` to `out`.
pub fn push_chars(out: &mut Vec<char>, src: &Vec<char>)
    ensures
        final(out)@ == old(out)@ + src@,
{
    let n: usize = src.len();
    let mut i: usize = 0;
    proof {
        assert(out@ =~= old(out)@ + src@.take(0));
    }
    while i < n
        invariant
            n == src@.len(),
            i <= n,
            out@ == old(out)@ + src@.take(i as int),
        decreases n - i,
    {
        out.push(src[i]);
        proof {
            assert(src@.take(i + 1) =~= src@.take(i as int).push(src@[i as int]));
            assert(out@ =~= old(out)@ + src@.take(i + 1));
        }
        i = i + 1;
    }
    proof {
        assert(src@.take(n as int) =~= src@);
    }
}

/// Appends all characters of `s` to `out`.
pub fn push_str_chars(out: &mut Vec<char>, s: &str)
    ensures
        final(out)@ == old(out)@ + s@,
{
    let sv = str_to_chars(s);
    push_chars(out, &sv);
}

// ---------------------------------------------------------------------------
// Whitespace trimming
// ---------------------------------------------------------------------------

/// ASCII whitespace, the forms that occur in HTTP header values.
pub open spec fn is_space(c: char) -> bool {
    (c as u32) == 32 || (c as u32) == 9 || (c as u32) == 10 || (c as u32) == 13 || (c as u32) == 12
}

pub open spec fn trim_front(s: Seq<char>) -> Seq<char>
    decreases s.len(),
{
    if s.len() > 0 && is_space(s[0]) {
        trim_front(s.skip(1))
    } else {
        s
    }
}

pub open spec fn trim_back(s: Seq<char>) -> Seq<char>
    decreases s.len(),
{
    if s.len() > 0 && is_space(s.last()) {
        trim_back(s.drop_last())
    } else {
        s
    }
}

/// Both ends trimmed of ASCII whitespace.
pub open spec fn spec_trim(s: Seq<char>) -> Seq<char> {
    trim_back(trim_front(s))
}

fn is_space_exec(c: char) -> (r: bool)
    ensures
        r == is_space(c),
{
    let u: u32 = c as u32;
    u == 32 || u == 9 || u == 10 || u == 13 || u == 12
}

/// Trims ASCII whitespace from both ends of a character vector slice
/// `[from, to)`, returning the trimmed range.
pub fn trim_range(v: &Vec<char>, from: usize, to: usize) -> (r: (usize, usize))
    requires
        from <= to <= v@.len(),
    ensures
        from <= r.0 <= r.1 <= to,
        v@.subrange(r.0 as int, r.1 as int) == spec_trim(v@.subrange(from as int, to as int)),
{
    let ghost orig = v@.subrange(from as int, to as int);
    let mut a: usize = from;
    let mut front_done: bool = false;
    while !front_done
        invariant
            from <= a <= to <= v@.len(),
            trim_front(orig) == trim_front(v@.subrange(a as int, to as int)),
            front_done ==> a == to || !is_space(v@[a as int]),
        decreases to - a, (if front_done { 0int } else { 1int }),
    {
        if a >= to {
            front_done = true;
        } else {
            let c = v[a];
            if is_space_exec(c) {
                proof {
                    assert(v@.subrange(a as int, to as int).skip(1) =~= v@.subrange(
                        a + 1,
                        to as int,
                    ));
                }
                a = a + 1;
            } else {
                front_done = true;
            }
        }
    }
    proof {
        if a < to {
            assert(v@.subrange(a as int, to as int)[0] == v@[a as int]);
        }
        assert(trim_front(orig) == v@.subrange(a as int, to as int));
    }
    let mut b: usize = to;
    let mut back_done: bool = false;
    while !back_done
        invariant
            from <= a <= b <= to <= v@.len(),
            trim_front(orig) == v@.subrange(a as int, to as int),
            trim_back(v@.subrange(a as int, to as int)) == trim_back(
                v@.subrange(a as int, b as int),
            ),
            back_done ==> b == a || !is_space(v@[b - 1]),
        decreases b, (if back_done { 0int } else { 1int }),
    {
        if b <= a {
            back_done = true;
        } else {
            let c = v[b - 1];
            if is_space_exec(c) {
                proof {
                    assert(v@.subrange(a as int, b as int).drop_last() =~= v@.subrange(
                        a as int,
                        b - 1,
                    ));
                }
                b = b - 1;
            } else {
                back_done = true;
            }
        }
    }
    proof {
        if b > a {
            assert(v@.subrange(a as int, b as int).last() == v@[b - 1]);
        }
        assert(trim_back(v@.subrange(a as int, b as int)) == v@.subrange(a as int, b as int));
    }
    (a, b)
}

// ---------------------------------------------------------------------------
// Finding a character
// ---------------------------------------------------------------------------

/// Index of the first occurrence of `c` in `s`, or `s.len()` when absent.
pub open spec fn find_char(s: Seq<char>, c: char) -> int
    decreases s.len(),
{
    if s.len() == 0 {
        0
    } else if s[0] == c {
        0
    } else {
        1 + find_char(s.skip(1), c)
    }
}

pub proof fn lemma_find_char_props(s: Seq<char>, c: char)
    ensures
        0 <= find_char(s, c) <= s.len(),
        forall|i: int| 0 <= i < find_char(s, c) ==> s[i] != c,
        find_char(s, c) < s.len() ==> s[find_char(s, c)] == c,
    decreases s.len(),
{
    if s.len() > 0 && s[0] != c {
        lemma_find_char_props(s.skip(1), c);
        assert forall|i: int| 0 <= i < find_char(s, c) implies s[i] != c by {
            if i > 0 {
                assert(s.skip(1)[i - 1] == s[i]);
            }
        }
    }
}

pub proof fn lemma_find_char_at(s: Seq<char>, c: char, k: int)
    requires
        0 <= k <= s.len(),
        forall|i: int| 0 <= i < k ==> s[i] != c,
        k < s.len() ==> s[k] == c,
    ensures
        find_char(s, c) == k,
    decreases s.len(),
{
    if s.len() > 0 && s[0] != c {
        assert(k > 0);
        lemma_find_char_at(s.skip(1), c, k - 1);
    }
}

/// Scans `[from, to)` of `v` for the first occurrence of `c`.
pub fn find_char_range(v: &Vec<char>, from: usize, to: usize, c: char) -> (r: usize)
    requires
        from <= to <= v@.len(),
    ensures
        r - from == find_char(v@.subrange(from as int, to as int), c),
        from <= r <= to,
{
    let mut i: usize = from;
    while i < to
        invariant
            from <= i <= to <= v@.len(),
            forall|j: int| from <= j < i ==> v@[j] != c,
        decreases to - i,
    {
        if v[i] == c {
            proof {
                let sub = v@.subrange(from as int, to as int);
                assert(forall|j: int|
                    0 <= j < i - from ==> #[trigger] sub[j] == v@[from + j] && v@[from + j] != c);
                assert(sub[i - from] == c);
                lemma_find_char_at(sub, c, i - from);
            }
            return i;
        }
        i = i + 1;
    }
    proof {
        let sub = v@.subrange(from as int, to as int);
        assert(forall|j: int|
            0 <= j < to - from ==> #[trigger] sub[j] == v@[from + j] && v@[from + j] != c);
        lemma_find_char_at(sub, c, to - from);
    }
    to
}

} // verus!

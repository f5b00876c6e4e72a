//! Verified string helpers: decimal rendering with zero padding, decimal
//! parsing, searches from the end of a string, substring containment and
//! lexicographic order.  Rotated-file names are built and taken apart with
//! these.

use vstd::prelude::*;

verus! {

/// Relies on `String::push` of std, which vstd leaves unspecified: appends
/// exactly the given character.
#[verifier::external_body]
pub fn push_char(s: &mut String, c: char)
    ensures
        final(s)@ == old(s)@ + seq![c],
{
    s.push(c);
}

/// The digit character for one decimal digit.
pub open spec fn digit_char(d: int) -> char {
    if d == 0 {
        '0'
    } else if d == 1 {
        '1'
    } else if d == 2 {
        '2'
    } else if d == 3 {
        '3'
    } else if d == 4 {
        '4'
    } else if d == 5 {
        '5'
    } else if d == 6 {
        '6'
    } else if d == 7 {
        '7'
    } else if d == 8 {
        '8'
    } else {
        '9'
    }
}

/// The decimal digits of `n`, most significant first, no padding.
pub open spec fn dec_digits(n: nat) -> Seq<char>
    decreases n,
{
    if n < 10 {
        seq![digit_char(n as int)]
    } else {
        dec_digits(n / 10) + seq![digit_char((n % 10) as int)]
    }
}

/// The decimal digits of `n`, left-padded with zeros to at least `width`
/// characters; longer numbers render in full.
pub open spec fn padded_digits(n: nat, width: nat) -> Seq<char> {
    if dec_digits(n).len() >= width {
        dec_digits(n)
    } else {
        Seq::new((width - dec_digits(n).len()) as nat, |i: int| '0') + dec_digits(n)
    }
}

/// `10 ^ k`.
pub open spec fn pow10(k: nat) -> nat
    decreases k,
{
    if k == 0 {
        1
    } else {
        10 * pow10((k - 1) as nat)
    }
}

/// Numbers below `10 ^ k` have at most `k` digits.
pub proof fn lemma_dec_digits_len(n: nat, k: nat)
    requires
        k >= 1,
        n < pow10(k),
    ensures
        dec_digits(n).len() <= k,
    decreases n,
{
    if n >= 10 {
        assert(pow10(k) == 10 * pow10((k - 1) as nat));
        assert(n / 10 < pow10((k - 1) as nat)) by (nonlinear_arith)
            requires
                n < 10 * pow10((k - 1) as nat),
                n >= 10,
        ;
        lemma_dec_digits_len(n / 10, (k - 1) as nat);
    }
}

/// Ten to the tenth bounds every `u32`.
proof fn lemma_pow10_10()
    ensures
        pow10(10) == 10000000000,
{
    assert(pow10(0) == 1);
    assert(pow10(1) == 10);
    assert(pow10(2) == 100);
    assert(pow10(3) == 1000);
    assert(pow10(4) == 10000);
    assert(pow10(5) == 100000);
    assert(pow10(6) == 1000000);
    assert(pow10(7) == 10000000);
    assert(pow10(8) == 100000000);
    assert(pow10(9) == 1000000000);
    assert(pow10(10) == 10000000000);
}

/// Appends the digit character of one decimal digit.
fn push_digit_char(s: &mut String, d: u32)
    requires
        d < 10,
    ensures
        final(s)@ == old(s)@ + seq![digit_char(d as int)],
{
    proof {
        reveal_strlit("0");
        reveal_strlit("1");
        reveal_strlit("2");
        reveal_strlit("3");
        reveal_strlit("4");
        reveal_strlit("5");
        reveal_strlit("6");
        reveal_strlit("7");
        reveal_strlit("8");
        reveal_strlit("9");
    }
    let lit = match d {
        0 => "0",
        1 => "1",
        2 => "2",
        3 => "3",
        4 => "4",
        5 => "5",
        6 => "6",
        7 => "7",
        8 => "8",
        _ => "9",
    };
    s.append(lit);
    proof {
        assert(final(s)@ =~= old(s)@ + seq![digit_char(d as int)]);
    }
}

/// Appends the decimal digits of `n`, most significant first.
pub fn push_dec_digits(s: &mut String, n: u32)
    ensures
        final(s)@ == old(s)@ + dec_digits(n as nat),
    decreases n,
{
    if n >= 10 {
        push_dec_digits(s, n / 10);
    }
    push_digit_char(s, n % 10);
    proof {
        assert(final(s)@ =~= old(s)@ + dec_digits(n as nat));
    }
}

/// The number of decimal digits of `n`.
pub fn dec_len(n: u32) -> (r: usize)
    ensures
        r == dec_digits(n as nat).len(),
        1 <= r <= 10,
    decreases n,
{
    proof {
        lemma_pow10_10();
        lemma_dec_digits_len(n as nat, 10);
    }
    if n < 10 {
        1
    } else {
        1 + dec_len(n / 10)
    }
}

/// Appends the decimal digits of `n`, left-padded with zeros to at least
/// `width` characters.
pub fn push_padded_digits(s: &mut String, n: u32, width: usize)
    requires
        width <= 100,
    ensures
        final(s)@ == old(s)@ + padded_digits(n as nat, width as nat),
{
    let len = dec_len(n);
    let mut i: usize = len;
    while i < width
        invariant
            len <= i <= width || (i == len && len >= width),
            len == dec_digits(n as nat).len(),
            width <= 100,
            s@ == old(s)@ + Seq::new((i - len) as nat, |j: int| '0'),
        decreases width - i,
    {
        s.append("0");
        proof {
            reveal_strlit("0");
            assert(s@ =~= old(s)@ + Seq::new((i + 1 - len) as nat, |j: int| '0'));
        }
        i = i + 1;
    }
    push_dec_digits(s, n);
    proof {
        assert(final(s)@ =~= old(s)@ + padded_digits(n as nat, width as nat));
    }
}

/// Whether `c` is a decimal digit character.
pub open spec fn is_dec_digit(c: char) -> bool {
    '0' <= c && c <= '9'
}

/// The value of a decimal digit character.
pub open spec fn digit_val(c: char) -> int {
    c as int - '0' as int
}

/// Whether every character of `s` is a decimal digit.
pub open spec fn all_digits(s: Seq<char>) -> bool {
    forall|i: int| 0 <= i < s.len() ==> is_dec_digit(#[trigger] s[i])
}

/// The number denoted by a sequence of decimal digit characters.
pub open spec fn parse_dec(s: Seq<char>) -> int
    decreases s.len(),
{
    if s.len() == 0 {
        0
    } else {
        parse_dec(s.drop_last()) * 10 + digit_val(s.last())
    }
}

/// What `u32` parsing with a fallback of zero yields: the denoted number for
/// a nonempty all-digit string whose value fits, and zero otherwise.
pub open spec fn parse_u32_or_zero(s: Seq<char>) -> u32 {
    if s.len() > 0 && all_digits(s) && parse_dec(s) <= u32::MAX {
        parse_dec(s) as u32
    } else {
        0
    }
}

/// Denoted numbers do not shrink when digits are appended.
proof fn lemma_parse_dec_prefix(s: Seq<char>, i: int)
    requires
        all_digits(s),
        0 <= i <= s.len(),
    ensures
        parse_dec(s.take(i)) <= parse_dec(s),
        parse_dec(s) >= 0,
    decreases s.len() - i,
{
    if i == s.len() {
        assert(s.take(i) =~= s);
        lemma_parse_dec_nonneg(s);
    } else {
        assert(s.take(i + 1).drop_last() =~= s.take(i));
        lemma_parse_dec_nonneg(s.take(i));
        assert(parse_dec(s.take(i + 1)) == parse_dec(s.take(i)) * 10 + digit_val(
            s.take(i + 1).last(),
        ));
        assert(parse_dec(s.take(i)) * 10 >= parse_dec(s.take(i))) by (nonlinear_arith)
            requires
                parse_dec(s.take(i)) >= 0,
        ;
        lemma_parse_dec_prefix(s, i + 1);
    }
}

/// An all-digit string denotes a number.
proof fn lemma_parse_dec_nonneg(s: Seq<char>)
    requires
        all_digits(s),
    ensures
        parse_dec(s) >= 0,
    decreases s.len(),
{
    if s.len() > 0 {
        assert(all_digits(s.drop_last()));
        lemma_parse_dec_nonneg(s.drop_last());
        assert(parse_dec(s.drop_last()) * 10 >= 0) by (nonlinear_arith)
            requires
                parse_dec(s.drop_last()) >= 0,
        ;
    }
}

/// Parses `s` as a `u32`, yielding zero when `s` is empty, holds a
/// non-digit, or denotes a number above `u32::MAX`.
pub fn parse_u32_or_zero_exec(s: &str) -> (r: u32)
    ensures
        r == parse_u32_or_zero(s@),
{
    let len = s.unicode_len();
    if len == 0 {
        return 0;
    }
    let mut i: usize = 0;
    let mut acc: u32 = 0;
    while i < len
        invariant
            0 <= i <= len,
            len == s@.len(),
            all_digits(s@.take(i as int)),
            acc == parse_dec(s@.take(i as int)),
        decreases len - i,
    {
        let c = s.get_char(i);
        let d: u32 = if c == '0' {
            0
        } else if c == '1' {
            1
        } else if c == '2' {
            2
        } else if c == '3' {
            3
        } else if c == '4' {
            4
        } else if c == '5' {
            5
        } else if c == '6' {
            6
        } else if c == '7' {
            7
        } else if c == '8' {
            8
        } else if c == '9' {
            9
        } else {
            return 0;
        };
        proof {
            assert(is_dec_digit(s@[i as int]) && digit_val(s@[i as int]) == d);
            assert(all_digits(s@.take(i + 1)));
            assert(s@.take(i + 1).drop_last() =~= s@.take(i as int));
        }
        if acc > (u32::MAX - d) / 10 {
            proof {
                assert(parse_dec(s@.take(i + 1)) > u32::MAX) by (nonlinear_arith)
                    requires
                        parse_dec(s@.take(i + 1)) == acc * 10 + d,
                        acc > (u32::MAX - d) / 10,
                        d < 10,
                ;
                if all_digits(s@) {
                    lemma_parse_dec_prefix(s@, i + 1);
                }
                assert(s@.take(len as int) =~= s@);
            }
            return 0;
        }
        acc = acc * 10 + d;
        i = i + 1;
    }
    proof {
        assert(s@.take(len as int) =~= s@);
    }
    acc
}

/// Reading back the decimal digits of a number yields the number.
pub proof fn lemma_parse_dec_roundtrip(n: nat)
    ensures
        all_digits(dec_digits(n)),
        parse_dec(dec_digits(n)) == n,
    decreases n,
{
    if n < 10 {
        assert(dec_digits(n) =~= seq![digit_char(n as int)]);
        assert(dec_digits(n).drop_last() =~= Seq::<char>::empty());
        assert(parse_dec(dec_digits(n).drop_last()) == 0);
        assert(is_dec_digit(digit_char(n as int)) && digit_val(digit_char(n as int)) == n);
    } else {
        lemma_parse_dec_roundtrip(n / 10);
        let d = dec_digits(n / 10);
        let whole = dec_digits(n);
        assert(whole =~= d + seq![digit_char((n % 10) as int)]);
        assert(whole.drop_last() =~= d);
        assert(is_dec_digit(digit_char((n % 10) as int)) && digit_val(
            digit_char((n % 10) as int),
        ) == n % 10);
        assert(parse_dec(whole) == parse_dec(d) * 10 + (n % 10));
        assert forall|i: int| 0 <= i < whole.len() implies is_dec_digit(#[trigger] whole[i]) by {
            if i < d.len() {
                assert(whole[i] == d[i]);
            } else {
                assert(whole[i] == digit_char((n % 10) as int));
            }
        }
    }
}

/// Leading zeros do not change the number a digit string denotes.
pub proof fn lemma_parse_dec_zeros(z: Seq<char>, s: Seq<char>)
    requires
        forall|i: int| 0 <= i < z.len() ==> #[trigger] z[i] == '0',
    ensures
        parse_dec(z + s) == parse_dec(s),
    decreases s.len(),
{
    if s.len() == 0 {
        assert(z + s =~= z);
        lemma_parse_dec_all_zero(z);
    } else {
        assert((z + s).drop_last() =~= z + s.drop_last());
        assert((z + s).last() == s.last());
        lemma_parse_dec_zeros(z, s.drop_last());
    }
}

/// A string of zeros denotes zero.
proof fn lemma_parse_dec_all_zero(z: Seq<char>)
    requires
        forall|i: int| 0 <= i < z.len() ==> #[trigger] z[i] == '0',
    ensures
        parse_dec(z) == 0,
    decreases z.len(),
{
    if z.len() > 0 {
        lemma_parse_dec_all_zero(z.drop_last());
        assert(digit_val(z.last()) == 0);
    }
}

/// Reading back a zero-padded number yields the number.
pub proof fn lemma_parse_padded_roundtrip(n: nat, width: nat)
    requires
        n <= u32::MAX,
    ensures
        all_digits(padded_digits(n, width)),
        parse_dec(padded_digits(n, width)) == n,
        parse_u32_or_zero(padded_digits(n, width)) == n,
{
    lemma_parse_dec_roundtrip(n);
    let d = dec_digits(n);
    if d.len() >= width {
        assert(padded_digits(n, width) == d);
    } else {
        let z = Seq::new((width - d.len()) as nat, |i: int| '0');
        lemma_parse_dec_zeros(z, d);
        assert(padded_digits(n, width) == z + d);
        assert forall|i: int| 0 <= i < (z + d).len() implies is_dec_digit(#[trigger] (z + d)[i]) by {
            if i < z.len() {
                assert((z + d)[i] == '0');
            } else {
                assert((z + d)[i] == d[i - z.len()]);
            }
        }
    }
}

/// One past the end of the last occurrence of `_r` in `s`, or `-1` when
/// there is none.
pub open spec fn last_marker_end(s: Seq<char>) -> int
    decreases s.len(),
{
    if s.len() < 2 {
        -1
    } else if s[s.len() - 2] == '_' && s[s.len() - 1] == 'r' {
        s.len() as int
    } else {
        last_marker_end(s.drop_last())
    }
}

/// What follows the last `_r` of `s`; `s` itself when it has no `_r`.
pub open spec fn after_last_marker(s: Seq<char>) -> Seq<char> {
    if last_marker_end(s) >= 0 {
        s.subrange(last_marker_end(s), s.len() as int)
    } else {
        s
    }
}

/// Appending digits to a string that ends in `_r` leaves that `_r` the
/// last one.
pub proof fn lemma_last_marker_with_digits(x: Seq<char>, d: Seq<char>)
    requires
        x.len() >= 2,
        x[x.len() - 2] == '_' && x[x.len() - 1] == 'r',
        all_digits(d),
    ensures
        last_marker_end(x + d) == x.len(),
    decreases d.len(),
{
    if d.len() == 0 {
        assert(x + d =~= x);
    } else {
        let w = x + d;
        assert(is_dec_digit(d[d.len() - 1]));
        assert(w[w.len() - 1] == d[d.len() - 1]);
        assert(w[w.len() - 1] != 'r');
        assert((x + d).drop_last() =~= x + d.drop_last());
        assert(all_digits(d.drop_last()));
        lemma_last_marker_with_digits(x, d.drop_last());
    }
}

/// The position of the last `.` of `s`, or `-1` when there is none.
pub open spec fn last_dot(s: Seq<char>) -> int
    decreases s.len(),
{
    if s.len() == 0 {
        -1
    } else if s.last() == '.' {
        s.len() - 1
    } else {
        last_dot(s.drop_last())
    }
}

/// What precedes the last `.` of `s`; `s` itself when it has no `.`.
pub open spec fn stem_of(s: Seq<char>) -> Seq<char> {
    if last_dot(s) >= 0 {
        s.take(last_dot(s))
    } else {
        s
    }
}

proof fn lemma_last_marker_end_bounds(s: Seq<char>)
    ensures
        last_marker_end(s) == -1 || 2 <= last_marker_end(s) <= s.len(),
    decreases s.len(),
{
    if s.len() >= 2 && !(s[s.len() - 2] == '_' && s[s.len() - 1] == 'r') {
        lemma_last_marker_end_bounds(s.drop_last());
    }
}

proof fn lemma_last_dot_bounds(s: Seq<char>)
    ensures
        -1 <= last_dot(s) < s.len(),
    decreases s.len(),
{
    if s.len() > 0 && s.last() != '.' {
        lemma_last_dot_bounds(s.drop_last());
    }
}

/// The substring of `s` after its last `_r`, as the tail of a reverse split
/// at `_r` would give it.
pub fn after_last_marker_exec(s: &str) -> (r: String)
    ensures
        r@ == after_last_marker(s@),
{
    proof {
        lemma_last_marker_end_bounds(s@);
    }
    let len = s.unicode_len();
    let mut i: usize = len;
    proof {
        assert(s@.take(len as int) =~= s@);
    }
    while i >= 2
        invariant
            0 <= i <= len,
            len == s@.len(),
            last_marker_end(s@.take(i as int)) == last_marker_end(s@),
        decreases i,
    {
        proof {
            assert(s@.take(i as int).drop_last() =~= s@.take(i - 1));
        }
        if s.get_char(i - 2) == '_' && s.get_char(i - 1) == 'r' {
            proof {
                assert(last_marker_end(s@.take(i as int)) == i);
            }
            let mut r = String::new();
            let mut j: usize = i;
            while j < len
                invariant
                    i <= j <= len,
                    len == s@.len(),
                    r@ == s@.subrange(i as int, j as int),
                decreases len - j,
            {
                let c = s.get_char(j);
                push_char(&mut r, c);
                proof {
                    assert(r@ =~= s@.subrange(i as int, j + 1));
                }
                j = j + 1;
            }
            return r;
        }
        i = i - 1;
    }
    proof {
        assert(s@.take(i as int).len() < 2);
        assert(last_marker_end(s@) == -1);
    }
    let mut r = String::new();
    let mut j: usize = 0;
    while j < len
        invariant
            0 <= j <= len,
            len == s@.len(),
            r@ == s@.subrange(0, j as int),
        decreases len - j,
    {
        let c = s.get_char(j);
        push_char(&mut r, c);
        proof {
            assert(r@ =~= s@.subrange(0, j + 1));
        }
        j = j + 1;
    }
    proof {
        assert(r@ =~= s@);
    }
    r
}

/// The stem of `s`: what precedes its last `.`, or all of `s` without one.
pub fn stem_of_exec(s: &str) -> (r: String)
    ensures
        r@ == stem_of(s@),
{
    proof {
        lemma_last_dot_bounds(s@);
    }
    let len = s.unicode_len();
    let mut i: usize = len;
    proof {
        assert(s@.take(len as int) =~= s@);
    }
    while i >= 1
        invariant
            0 <= i <= len,
            len == s@.len(),
            last_dot(s@.take(i as int)) == last_dot(s@),
        decreases i,
    {
        proof {
            assert(s@.take(i as int).drop_last() =~= s@.take(i - 1));
        }
        if s.get_char(i - 1) == '.' {
            proof {
                assert(last_dot(s@.take(i as int)) == i - 1);
            }
            let mut r = String::new();
            let mut j: usize = 0;
            while j < i - 1
                invariant
                    i >= 1,
                    0 <= j <= i - 1 <= len,
                    len == s@.len(),
                    r@ == s@.subrange(0, j as int),
                decreases i - j,
            {
                let c = s.get_char(j);
                push_char(&mut r, c);
                proof {
                    assert(r@ =~= s@.subrange(0, j + 1));
                }
                j = j + 1;
            }
            proof {
                assert(r@ =~= stem_of(s@));
            }
            return r;
        }
        i = i - 1;
    }
    proof {
        assert(last_dot(s@) == -1);
    }
    let r = s.to_owned();
    r
}

/// Whether `a` and `b` are the same string.
pub fn str_equal(a: &str, b: &str) -> (r: bool)
    ensures
        r == (a@ == b@),
{
    let alen = a.unicode_len();
    let blen = b.unicode_len();
    if alen != blen {
        return false;
    }
    let mut i: usize = 0;
    while i < alen
        invariant
            0 <= i <= alen,
            alen == a@.len() && alen == b@.len(),
            forall|j: int| 0 <= j < i ==> a@[j] == b@[j],
        decreases alen - i,
    {
        if a.get_char(i) != b.get_char(i) {
            return false;
        }
        i = i + 1;
    }
    proof {
        assert(a@ =~= b@);
    }
    true
}

/// Whether `s` ends with `suffix`.
pub open spec fn spec_ends_with(s: Seq<char>, suffix: Seq<char>) -> bool {
    s.len() >= suffix.len() && s.subrange(s.len() - suffix.len(), s.len() as int) == suffix
}

/// Whether `s` ends with `suffix`.
pub fn ends_with(s: &str, suffix: &str) -> (r: bool)
    ensures
        r == spec_ends_with(s@, suffix@),
{
    let slen = s.unicode_len();
    let xlen = suffix.unicode_len();
    if slen < xlen {
        return false;
    }
    let off = slen - xlen;
    let mut i: usize = 0;
    while i < xlen
        invariant
            0 <= i <= xlen <= slen,
            off == slen - xlen,
            slen == s@.len() && xlen == suffix@.len(),
            forall|j: int| 0 <= j < i ==> a_sub(s@, off as int)[j] == suffix@[j],
        decreases xlen - i,
    {
        if s.get_char(off + i) != suffix.get_char(i) {
            proof {
                assert(a_sub(s@, off as int)[i as int] != suffix@[i as int]);
            }
            return false;
        }
        i = i + 1;
    }
    proof {
        assert(a_sub(s@, off as int) =~= suffix@);
    }
    true
}

/// The tail of `s` from position `off`.
pub open spec fn a_sub(s: Seq<char>, off: int) -> Seq<char> {
    s.subrange(off, s.len() as int)
}

/// Whether `s` starts with `prefix`.
pub open spec fn spec_starts_with(s: Seq<char>, prefix: Seq<char>) -> bool {
    s.len() >= prefix.len() && s.take(prefix.len() as int) == prefix
}

/// Whether `s` starts with `prefix`.
pub fn starts_with(s: &str, prefix: &str) -> (r: bool)
    ensures
        r == spec_starts_with(s@, prefix@),
{
    let slen = s.unicode_len();
    let plen = prefix.unicode_len();
    if slen < plen {
        return false;
    }
    let mut i: usize = 0;
    while i < plen
        invariant
            0 <= i <= plen <= slen,
            slen == s@.len() && plen == prefix@.len(),
            forall|j: int| 0 <= j < i ==> s@[j] == prefix@[j],
        decreases plen - i,
    {
        if s.get_char(i) != prefix.get_char(i) {
            return false;
        }
        i = i + 1;
    }
    proof {
        assert(s@.take(plen as int) =~= prefix@);
    }
    true
}

/// Strict lexicographic order on character sequences, by code point.
pub open spec fn lex_less(a: Seq<char>, b: Seq<char>) -> bool
    decreases a.len(),
{
    if b.len() == 0 {
        false
    } else if a.len() == 0 {
        true
    } else if (a[0] as int) < (b[0] as int) {
        true
    } else if (a[0] as int) > (b[0] as int) {
        false
    } else {
        lex_less(a.skip(1), b.skip(1))
    }
}

/// Whether `a` comes strictly before `b` in lexicographic order.
pub fn lex_less_exec(a: &str, b: &str) -> (r: bool)
    ensures
        r == lex_less(a@, b@),
{
    let alen = a.unicode_len();
    let blen = b.unicode_len();
    let mut i: usize = 0;
    proof {
        assert(a@.skip(0) =~= a@ && b@.skip(0) =~= b@);
    }
    loop
        invariant
            0 <= i <= alen && i <= blen,
            alen == a@.len() && blen == b@.len(),
            lex_less(a@, b@) == lex_less(a@.skip(i as int), b@.skip(i as int)),
        decreases alen - i,
    {
        if i >= blen {
            proof {
                assert(b@.skip(i as int).len() == 0);
            }
            return false;
        }
        if i >= alen {
            proof {
                assert(a@.skip(i as int).len() == 0 && b@.skip(i as int).len() > 0);
            }
            return true;
        }
        let ca = a.get_char(i);
        let cb = b.get_char(i);
        proof {
            assert(a@.skip(i as int)[0] == a@[i as int] && b@.skip(i as int)[0] == b@[i as int]);
            assert(a@.skip(i as int).skip(1) =~= a@.skip(i + 1));
            assert(b@.skip(i as int).skip(1) =~= b@.skip(i + 1));
        }
        if (ca as u32) < (cb as u32) {
            return true;
        }
        if (ca as u32) > (cb as u32) {
            return false;
        }
        i = i + 1;
    }
}

/// Whether `needle` occurs in `hay` as a contiguous run of bytes.
pub open spec fn has_sub(hay: Seq<u8>, needle: Seq<u8>) -> bool {
    exists|k: int|
        0 <= k && k + needle.len() <= hay.len() && #[trigger] hay.subrange(k, k + needle.len())
            == needle
}

/// Whether `needle` occurs in `hay` as a contiguous run of bytes.
pub fn has_sub_exec(hay: &[u8], needle: &[u8]) -> (r: bool)
    ensures
        r == has_sub(hay@, needle@),
{
    let hlen = hay.len();
    let nlen = needle.len();
    if nlen > hlen {
        proof {
            assert(!has_sub(hay@, needle@));
        }
        return false;
    }
    let mut k: usize = 0;
    while k <= hlen - nlen
        invariant
            0 <= k,
            nlen <= hlen,
            k <= hlen - nlen + 1,
            hlen == hay@.len() && nlen == needle@.len(),
            forall|k2: int|
                0 <= k2 < k ==> #[trigger] hay@.subrange(k2, k2 + needle@.len()) != needle@,
        decreases hlen - k,
    {
        let mut i: usize = 0;
        let mut matches = true;
        while i < nlen
            invariant
                0 <= i <= nlen,
                k + nlen <= hlen,
                hlen == hay@.len() && nlen == needle@.len(),
                matches == (forall|j: int|
                    0 <= j < i ==> hay@.subrange(k as int, k + nlen)[j] == needle@[j]),
            decreases nlen - i,
        {
            if hay[k + i] != needle[i] {
                proof {
                    assert(hay@.subrange(k as int, k + nlen)[i as int] != needle@[i as int]);
                }
                matches = false;
                i = nlen;
            } else {
                proof {
                    assert(hay@.subrange(k as int, k + nlen)[i as int] == needle@[i as int]);
                }
                i = i + 1;
            }
        }
        if matches {
            proof {
                assert(hay@.subrange(k as int, k + nlen) =~= needle@);
            }
            return true;
        }
        proof {
            assert(hay@.subrange(k as int, k + nlen) != needle@);
        }
        k = k + 1;
    }
    proof {
        assert(!has_sub(hay@, needle@));
    }
    false
}

} // verus!

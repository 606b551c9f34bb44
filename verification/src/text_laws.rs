//! What the operations on characters, bytes and numbers promise.

use crate::number::{
    as_i64, as_u16, exponent, flag_bits, is_less, is_nan, law_small_integers_are_exact, magnitude,
    nearest, significand, spacing, through_real, whole, Number,
};
use crate::style::be_value;
use crate::text::{
    after_first, after_last, ascii_lower, is_white_space, leading_space, lower, occurs_in, trimmed,
    without_trailing_space,
};
use crate::unicode::{be16, be_pairs, utf16_text};
use vstd::arithmetic::power2::*;
use vstd::prelude::*;
use vstd::string::*;

verus! {

/// Whether a text is all white space.
pub open spec fn is_blank(s: Seq<char>) -> bool {
    forall|i: int| 0 <= i < s.len() ==> is_white_space(#[trigger] s[i])
}

/// The characters of white space.
pub proof fn law_white_space(c: char)
    ensures
        is_white_space(c) <==> ('\u{9}' <= c <= '\u{D}' || '\u{2000}' <= c <= '\u{200A}' || seq![
            ' ',
            '\u{85}',
            '\u{A0}',
            '\u{1680}',
            '\u{2028}',
            '\u{2029}',
            '\u{202F}',
            '\u{205F}',
            '\u{3000}',
        ].contains(c)),
{
    let all = seq![
        ' ',
        '\u{85}',
        '\u{A0}',
        '\u{1680}',
        '\u{2028}',
        '\u{2029}',
        '\u{202F}',
        '\u{205F}',
        '\u{3000}',
    ];
    assert(all[0] == ' ' && all[1] == '\u{85}' && all[2] == '\u{A0}' && all[3] == '\u{1680}'
        && all[4] == '\u{2028}' && all[5] == '\u{2029}' && all[6] == '\u{202F}' && all[7]
        == '\u{205F}' && all[8] == '\u{3000}');
}

proof fn lemma_leading(blank: Seq<char>, rest: Seq<char>)
    requires
        is_blank(blank),
        rest.len() == 0 || !is_white_space(rest[0]),
    ensures
        leading_space(blank + rest) == blank.len(),
    decreases blank.len(),
{
    if blank.len() > 0 {
        assert(is_white_space(blank[0]));
        assert((blank + rest).skip(1) =~= blank.skip(1) + rest);
        assert forall|i: int| 0 <= i < blank.skip(1).len() implies is_white_space(
            #[trigger] blank.skip(1)[i],
        ) by {
            assert(is_white_space(blank[i + 1]));
        }
        lemma_leading(blank.skip(1), rest);
    } else {
        assert(blank + rest =~= rest);
    }
}

proof fn lemma_trailing(core: Seq<char>, blank: Seq<char>)
    requires
        is_blank(blank),
        core.len() == 0 || !is_white_space(core.last()),
    ensures
        without_trailing_space(core + blank) == core.len(),
    decreases blank.len(),
{
    if blank.len() > 0 {
        assert(is_white_space(blank[blank.len() - 1]));
        assert((core + blank).drop_last() =~= core + blank.drop_last());
        assert forall|i: int| 0 <= i < blank.drop_last().len() implies is_white_space(
            #[trigger] blank.drop_last()[i],
        ) by {
            assert(is_white_space(blank[i]));
        }
        lemma_trailing(core, blank.drop_last());
    } else {
        assert(core + blank =~= core);
    }
}

/// Trimming takes the white space at both ends, and nothing else.
pub proof fn law_trimming(front: Seq<char>, core: Seq<char>, back: Seq<char>)
    requires
        is_blank(front),
        is_blank(back),
        core.len() > 0 ==> !is_white_space(core[0]) && !is_white_space(core.last()),
    ensures
        trimmed(front + core + back) == core,
{
    let s = front + core + back;
    if core.len() > 0 {
        assert(s =~= front + (core + back));
        lemma_leading(front, core + back);
        assert(s.skip(front.len() as int) =~= core + back);
        lemma_trailing(core, back);
        assert((core + back).take(core.len() as int) =~= core);
    } else {
        assert(s =~= s + Seq::<char>::empty());
        assert forall|i: int| 0 <= i < s.len() implies is_white_space(#[trigger] s[i]) by {
            if i < front.len() {
                assert(is_white_space(front[i]));
            } else {
                assert(is_white_space(back[i - front.len()]));
            }
        }
        lemma_leading(s, Seq::<char>::empty());
        assert(trimmed(s) =~= core);
    }
}

/// What follows a mark is found: behind the first one, or behind the last one.
pub proof fn law_parts_behind_a_mark(a: Seq<char>, b: Seq<char>, mark: char)
    ensures
        !a.contains(mark) ==> after_first(a.push(mark) + b, mark) == b && after_first(a, mark) == a
            && after_last(a, mark) == a,
        !b.contains(mark) ==> after_last(a.push(mark) + b, mark) == b,
{
    let s = a.push(mark) + b;
    a.index_of_first_ensures(mark);
    a.index_of_last_ensures(mark);
    s.index_of_first_ensures(mark);
    s.index_of_last_ensures(mark);
    assert(s[a.len() as int] == mark);
    if !a.contains(mark) {
        let i = s.index_of_first(mark)->0;
        assert(i == a.len()) by {
            if i < a.len() {
                assert(a[i] == mark);
            }
        }
        assert(s.skip(i + 1) =~= b);
    }
    if !b.contains(mark) {
        let i = s.index_of_last(mark)->0;
        assert(i == a.len()) by {
            if i > a.len() {
                assert(b[i - a.len() - 1] == mark);
            }
        }
        assert(s.skip(i + 1) =~= b);
    }
}

/// A part occurs in a text exactly where the text is the part with something before and behind.
pub proof fn law_occurrence(part: Seq<char>, a: Seq<char>, b: Seq<char>, s: Seq<char>)
    ensures
        occurs_in(part, a + part + b),
        occurs_in(part, s) ==> exists|x: Seq<char>, y: Seq<char>| s == #[trigger] (x + part + y),
{
    let whole = a + part + b;
    let at = a.len() as int;
    assert(whole.subrange(at, at + part.len()) =~= part);
    if occurs_in(part, s) {
        let i = choose|i: int|
            0 <= i <= s.len() - part.len() && #[trigger] s.subrange(i, i + part.len()) == part;
        let x = s.take(i);
        let y = s.skip(i + part.len());
        assert(s =~= x + part + y);
    }
}

/// Lower case changes the letters A to Z, by 32 each, and nothing else.
pub proof fn law_lower_case(s: Seq<char>, i: int)
    requires
        0 <= i < s.len(),
    ensures
        lower(s).len() == s.len(),
        'A' <= s[i] <= 'Z' ==> lower(s)[i] as u32 == s[i] as u32 + 32,
        !('A' <= s[i] <= 'Z') ==> lower(s)[i] == s[i],
        lower(lower(s)) == lower(s),
{
    assert(lower(lower(s)) =~= lower(s));
}

/// Bytes are paired from the first on, the more significant one first; a last byte without a
/// partner is left out.
pub proof fn law_byte_pairs(bytes: Seq<u8>, i: int)
    requires
        0 <= i < bytes.len() / 2,
    ensures
        be_pairs(bytes).len() == bytes.len() / 2,
        be_pairs(bytes)[i] == 256 * bytes[2 * i] + bytes[2 * i + 1],
        be16(bytes[2 * i], bytes[2 * i + 1]) == 256 * bytes[2 * i] + bytes[2 * i + 1],
{
}

/// A number is told by its bytes, the most significant one first.
pub proof fn law_big_endian_numbers(bytes: Seq<u8>, low: u8)
    ensures
        be_value(bytes.push(low)) == 256 * be_value(bytes) + low,
        be_value(Seq::<u8>::empty()) == 0,
{
    assert(bytes.push(low).drop_last() =~= bytes);
}

/// A code unit that is no surrogate is a character of its own.
pub proof fn law_utf16_plain_units(units: Seq<u16>)
    requires
        forall|i: int| 0 <= i < units.len() ==> !(0xD800 <= #[trigger] units[i] <= 0xDFFF),
    ensures
        utf16_text(units).len() == units.len(),
        forall|i: int|
            0 <= i < units.len() ==> (#[trigger] utf16_text(units)[i]) as u32 == units[i] as u32,
    decreases units.len(),
{
    if units.len() > 0 {
        assert(!(0xD800 <= units[0] <= 0xDFFF));
        let rest = units.skip(1);
        assert forall|i: int| 0 <= i < rest.len() implies !(0xD800 <= #[trigger] rest[i]
            <= 0xDFFF) by {
            assert(!(0xD800 <= units[i + 1] <= 0xDFFF));
        }
        law_utf16_plain_units(rest);
        assert forall|i: int| 0 <= i < units.len() implies (#[trigger] utf16_text(units)[i]) as u32
            == units[i] as u32 by {
            if i > 0 {
                assert(utf16_text(units)[i] == utf16_text(rest)[i - 1]);
            }
        }
    }
}

/// A high and a low surrogate together are one character beyond U+FFFF, and a surrogate without
/// its partner is U+FFFD; neither changes what follows.
pub proof fn law_utf16_surrogates(high: u16, low: u16, rest: Seq<u16>)
    requires
        0xD800 <= high <= 0xDBFF,
        0xDC00 <= low <= 0xDFFF,
    ensures
        utf16_text(seq![high, low] + rest).len() == 1 + utf16_text(rest).len(),
        utf16_text(seq![high, low] + rest)[0] as int == 0x10000 + (high - 0xD800) * 0x400 + (low
            - 0xDC00),
        utf16_text(seq![high, low] + rest).skip(1) == utf16_text(rest),
        utf16_text(seq![low] + rest) == seq!['\u{FFFD}'] + utf16_text(rest),
        utf16_text(seq![high]) == seq!['\u{FFFD}'],
        rest.len() > 0 && !(0xDC00 <= rest[0] <= 0xDFFF) ==> utf16_text(seq![high] + rest)
            == seq!['\u{FFFD}'] + utf16_text(rest),
{
    let both = seq![high, low] + rest;
    assert(both.skip(2) =~= rest);
    assert(0x10000 + (high - 0xD800) * 0x400 + (low - 0xDC00) <= 0x10FFFF);
    assert(utf16_text(both).skip(1) =~= utf16_text(rest));
    let one = seq![low] + rest;
    assert(one.skip(1) =~= rest);
    assert(seq![high].skip(1) =~= Seq::<u16>::empty());
    assert(utf16_text(Seq::<u16>::empty()) =~= Seq::<char>::empty());
    assert(utf16_text(seq![high]) =~= seq!['\u{FFFD}']);
    let other = seq![high] + rest;
    assert(other.skip(1) =~= rest);
}

/// Text is read unit by unit: what follows a whole character does not change it.
pub proof fn law_utf16_goes_on(unit: u16, rest: Seq<u16>)
    requires
        !(0xD800 <= unit <= 0xDFFF),
    ensures
        utf16_text(seq![unit] + rest) == seq![unit as char] + utf16_text(rest),
{
    let all = seq![unit] + rest;
    assert(all.skip(1) =~= rest);
}

/// A real is cut to its whole part: the bits of a number from 2^k to below 2^(k+1) give its
/// significand without what lies behind the point. What is below 1, below 0 or no number gives 0,
/// and what is 65536 or more the largest value.
pub proof fn law_reals_are_cut(bits: u32, k: nat)
    ensures
        bits < 127 * 0x80_0000 ==> as_u16(bits) == 0 && as_i64(bits) == 0,
        bits >= 0x8000_0000 ==> as_u16(bits) == 0,
        0x7F80_0000 < bits < 0x8000_0000 ==> as_u16(bits) == 0 && as_i64(bits) == 0,
        k < 16 && (127 + k) * 0x80_0000 <= bits < (128 + k) * 0x80_0000 ==> as_u16(bits) == (bits
            - (127 + k) * 0x80_0000 + 0x80_0000) / pow2((23 - k) as nat) as int && as_i64(bits)
            == as_u16(bits),
        143 * 0x80_0000 <= bits <= 0x7F80_0000 ==> as_u16(bits) == 65535,
{
    lemma2_to64();
    if bits < 127 * 0x80_0000 {
        let shift = (150 - exponent(bits)) as nat;
        if shift > 24 {
            lemma_pow2_strictly_increases(24, shift);
        }
        let m = significand(bits);
        let p = pow2(shift) as int;
        assert(m / p == 0) by (nonlinear_arith)
            requires
                0 <= m < p,
        ;
    }
    if k < 16 && (127 + k) * 0x80_0000 <= bits < (128 + k) * 0x80_0000 {
        assert(magnitude(bits) == bits);
        assert(exponent(bits) == 127 + k);
        let m = significand(bits);
        assert(m == bits - (127 + k) * 0x80_0000 + 0x80_0000);
        let p = pow2((23 - k) as nat) as int;
        if k < 15 {
            lemma_pow2_strictly_increases(8, (23 - k) as nat);
        }
        assert(0 <= m / p <= 65535) by (nonlinear_arith)
            requires
                0 <= m < 0x100_0000,
                p >= 256,
        ;
    }
    if 143 * 0x80_0000 <= bits <= 0x7F80_0000 {
        let m = significand(bits);
        let e = exponent(bits);
        assert(e >= 143);
        if e <= 150 {
            let p = pow2((150 - e) as nat) as int;
            if e > 143 {
                lemma_pow2_strictly_increases((150 - e) as nat, 7);
            }
            lemma_pow2_pos((150 - e) as nat);
            assert(m / p >= 65536) by (nonlinear_arith)
                requires
                    m >= 0x80_0000,
                    0 < p <= 128,
            ;
        } else {
            let p = pow2((e - 150) as nat);
            lemma_pow2_pos((e - 150) as nat);
            assert(m * p >= 0x80_0000) by (nonlinear_arith)
                requires
                    m >= 0x80_0000,
                    p >= 1,
            ;
        }
    }
}

/// A negative real is cut as its opposite is.
pub proof fn law_negative_reals_are_cut(bits: u32)
    requires
        bits < 0x5F00_0000,
    ensures
        as_i64((bits + 0x8000_0000) as u32) == -as_i64(bits),
{
    let other = (bits + 0x8000_0000) as u32;
    assert(magnitude(other) == magnitude(bits) == bits);
    lemma2_to64();
    lemma2_to64_rest();
    let m = significand(bits);
    let e = exponent(bits);
    if e <= 150 {
        let p = pow2((150 - e) as nat) as int;
        lemma_pow2_pos((150 - e) as nat);
        assert(0 <= m / p <= m) by (nonlinear_arith)
            requires
                p >= 1,
                m >= 0,
        ;
    } else {
        let p = pow2((e - 150) as nat);
        if e < 189 {
            lemma_pow2_strictly_increases((e - 150) as nat, 39);
        }
        lemma_pow2_pos((e - 150) as nat);
        assert(0 <= m * p < 0x8000_0000_0000_0000) by (nonlinear_arith)
            requires
                0 <= m < 0x100_0000,
                0 < p <= 0x80_0000_0000,
        ;
    }
    assert(whole(other) == whole(bits));
}

/// Numbers compare by their bits: those above 0 as the bits do, those below 0 the other way
/// round, both zeros alike, and what is no number not at all.
pub proof fn law_order_of_bits(a: u32, b: u32)
    ensures
        a <= 0x7F80_0000 && b <= 0x7F80_0000 ==> (is_less(a, b) <==> a < b),
        0x8000_0000 <= a <= 0xFF80_0000 && 0x8000_0000 <= b <= 0xFF80_0000 ==> (is_less(a, b) <==> b
            < a),
        0x8000_0000 < a <= 0xFF80_0000 && b <= 0x7F80_0000 ==> is_less(a, b) && !is_less(b, a),
        !is_less(0, 0x8000_0000) && !is_less(0x8000_0000, 0),
        is_nan(a) <==> 0x7F80_0000 < a < 0x8000_0000 || a > 0xFF80_0000,
        is_nan(a) ==> !is_less(a, b) && !is_less(b, a),
        a < 0x8000_0000 ==> magnitude(a) == a,
        a >= 0x8000_0000 ==> magnitude(a) == a - 0x8000_0000,
{
}

/// Flags are those of an integer rounded to 24 bits, or of the whole part of a real.
pub proof fn law_flags(n: i64, bits: u32)
    ensures
        -0x100_0000 < n < 0x100_0000 ==> flag_bits(Number::Integer(n)) == n,
        flag_bits(Number::Integer(n)) == through_real(n),
        flag_bits(Number::Real(bits)) == as_i64(bits),
{
    if -0x100_0000 < n < 0x100_0000 {
        law_small_integers_are_exact(n);
    }
}

/// The lower-case form of a letter.
pub proof fn law_lower_letter(c: char)
    ensures
        'A' <= c <= 'Z' ==> 'a' <= ascii_lower(c) <= 'z',
        !('A' <= c <= 'Z') ==> ascii_lower(c) == c,
{
}

/// An integer is rounded to 24 significant bits: to the nearer of the multiples of a power of two
/// around it, and of two equally near ones to that of the even multiple.
pub proof fn law_rounding(n: nat) -> (k: nat)
    ensures
        spacing(n) == pow2(k),
        n < 0x100_0000 ==> spacing(n) == 1,
        n >= 0x100_0000 ==> 0x80_0000 <= n / spacing(n) < 0x100_0000,
        nearest(n) == (n / spacing(n)) * spacing(n) || nearest(n) == (n / spacing(n) + 1) * spacing(
            n,
        ),
        2 * (n % spacing(n)) < spacing(n) ==> nearest(n) == (n / spacing(n)) * spacing(n),
        2 * (n % spacing(n)) > spacing(n) ==> nearest(n) == (n / spacing(n) + 1) * spacing(n),
        2 * (n % spacing(n)) == spacing(n) ==> nearest(n) == if (n / spacing(n)) % 2 == 0 {
            (n / spacing(n)) * spacing(n)
        } else {
            (n / spacing(n) + 1) * spacing(n)
        },
{
    let k = lemma_spacing(n);
    lemma_pow2_pos(k);
    let step = spacing(n);
    let below = n / step;
    assert(below * step >= 0 && (below + 1) * step >= 0) by (nonlinear_arith)
        requires
            below >= 0,
            step > 0,
    ;
    k
}

proof fn lemma_spacing(n: nat) -> (k: nat)
    ensures
        spacing(n) == pow2(k),
        n >= 0x100_0000 ==> 0x80_0000 <= n / spacing(n) < 0x100_0000,
    decreases n,
{
    lemma2_to64();
    if n < 0x100_0000 {
        0
    } else {
        let k = lemma_spacing(n / 2);
        lemma_pow2_unfold(k + 1);
        lemma_pow2_pos(k);
        let p = pow2(k);
        assert(n / (2 * p) == (n / 2) / p) by {
            vstd::arithmetic::div_mod::lemma_div_denominator(n as int, 2, p as int);
        }
        if n / 2 < 0x100_0000 {
            assert(p == 1);
            assert((n / 2) / p == n / 2) by (nonlinear_arith)
                requires
                    p == 1,
            ;
        }
        k + 1
    }
}

/// Rounded integers stay within 64 bits, and below 0 they are rounded as their opposites are.
pub proof fn law_rounded_integers(n: i64)
    ensures
        n >= 0 && nearest(n as nat) <= i64::MAX ==> through_real(n) == nearest(n as nat),
        n >= 0 && nearest(n as nat) > i64::MAX ==> through_real(n) == i64::MAX,
        n < 0 && nearest((-n) as nat) <= i64::MAX ==> through_real(n) == -nearest((-n) as nat),
        n < 0 && nearest((-n) as nat) > i64::MAX ==> through_real(n) == i64::MIN,
{
    lemma2_to64_rest();
}

/// A large real is cut to its whole part too: the significand, moved by the exponent. From 2^63 on
/// it is the largest value, and the smallest below 0.
pub proof fn law_large_reals_are_cut(bits: u32, e: nat)
    ensures
        127 <= e <= 150 && e * 0x80_0000 <= bits < (e + 1) * 0x80_0000 ==> as_i64(bits) == (bits - e
            * 0x80_0000 + 0x80_0000) / pow2((150 - e) as nat) as int,
        150 < e < 190 && e * 0x80_0000 <= bits < (e + 1) * 0x80_0000 ==> as_i64(bits) == (bits - e
            * 0x80_0000 + 0x80_0000) * pow2((e - 150) as nat),
        0x5F00_0000 <= bits <= 0x7F80_0000 ==> as_i64(bits) == i64::MAX,
        0xDF00_0000 <= bits <= 0xFF80_0000 ==> as_i64(bits) == i64::MIN,
{
    lemma2_to64();
    lemma2_to64_rest();
    if 127 <= e < 190 && e * 0x80_0000 <= bits < (e + 1) * 0x80_0000 {
        assert(magnitude(bits) == bits);
        assert(exponent(bits) == e);
        let m = significand(bits);
        assert(m == bits - e * 0x80_0000 + 0x80_0000);
        if e <= 150 {
            let p = pow2((150 - e) as nat) as int;
            lemma_pow2_pos((150 - e) as nat);
            assert(0 <= m / p <= m) by (nonlinear_arith)
                requires
                    p >= 1,
                    m >= 0,
            ;
        } else {
            let p = pow2((e - 150) as nat);
            if e < 189 {
                lemma_pow2_strictly_increases((e - 150) as nat, 39);
            }
            lemma_pow2_pos((e - 150) as nat);
            assert(0 <= m * p < 0x8000_0000_0000_0000) by (nonlinear_arith)
                requires
                    0 <= m < 0x100_0000,
                    0 < p <= 0x80_0000_0000,
            ;
        }
    }
    if 0x5F00_0000 <= magnitude(bits) <= 0x7F80_0000 {
        let m = significand(bits);
        let x = exponent(bits);
        assert(x >= 190);
        let p = pow2((x - 150) as nat);
        if x > 190 {
            lemma_pow2_strictly_increases(40, (x - 150) as nat);
        }
        assert(m * p >= 0x8000_0000_0000_0000) by (nonlinear_arith)
            requires
                m >= 0x80_0000,
                p >= 0x100_0000_0000,
        ;
    }
}

}

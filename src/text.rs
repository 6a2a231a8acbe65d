//! Character classes, numeric literal values and decimal rendering.
use vstd::prelude::*;

verus! {

/// What `char::is_alphabetic` answers for a character outside ASCII.
pub uninterp spec fn alphabetic(c: char) -> bool;

/// What `char::is_alphanumeric` answers for a character outside ASCII.
pub uninterp spec fn alphanumeric(c: char) -> bool;

/// What `char::is_whitespace` answers for a character outside ASCII.
pub uninterp spec fn whitespace(c: char) -> bool;

pub open spec fn is_ascii_letter(c: char) -> bool {
    ('a' <= c && c <= 'z') || ('A' <= c && c <= 'Z')
}

pub open spec fn is_dec_digit(c: char) -> bool {
    '0' <= c && c <= '9'
}

pub open spec fn is_hex_digit(c: char) -> bool {
    is_dec_digit(c) || ('a' <= c && c <= 'f') || ('A' <= c && c <= 'F')
}

pub open spec fn dec_digit_value(c: char) -> nat {
    (c as u32 - '0' as u32) as nat
}

pub open spec fn hex_digit_value(c: char) -> nat {
    if is_dec_digit(c) {
        dec_digit_value(c)
    } else if 'a' <= c && c <= 'f' {
        (c as u32 - 'a' as u32 + 10) as nat
    } else {
        (c as u32 - 'A' as u32 + 10) as nat
    }
}

/// The value of a run of decimal digits, most significant first.
pub open spec fn dec_value(d: Seq<char>) -> nat
    decreases d.len(),
{
    if d.len() == 0 {
        0
    } else {
        dec_value(d.drop_last()) * 10 + dec_digit_value(d.last())
    }
}

/// The value of a run of hexadecimal digits, most significant first.
pub open spec fn hex_value(d: Seq<char>) -> nat
    decreases d.len(),
{
    if d.len() == 0 {
        0
    } else {
        hex_value(d.drop_last()) * 16 + hex_digit_value(d.last())
    }
}

pub open spec fn digit_char(v: nat) -> char {
    ('0' as u32 + v) as char
}

/// The shortest decimal rendering of `v`.
pub open spec fn dec_str(v: nat) -> Seq<char>
    decreases v,
{
    if v < 10 {
        seq![digit_char(v)]
    } else {
        dec_str(v / 10).push(digit_char(v % 10))
    }
}

/// Number of characters from `i` on that satisfy `f`, stopping at the first that does not.
pub open spec fn run_len(s: Seq<char>, i: int, f: spec_fn(char) -> bool) -> nat
    decreases s.len() - i,
{
    if 0 <= i < s.len() && f(s[i]) {
        1 + run_len(s, i + 1, f)
    } else {
        0
    }
}

/// `char::is_alphabetic`: the ASCII letters, and outside ASCII the Alphabetic property.
pub open spec fn is_alpha(c: char) -> bool {
    if (c as u32) < 128 {
        is_ascii_letter(c)
    } else {
        alphabetic(c)
    }
}

/// `char::is_alphanumeric`: the ASCII letters and digits, and outside ASCII
/// the Alphabetic or Numeric property.
pub open spec fn is_alnum(c: char) -> bool {
    if (c as u32) < 128 {
        is_ascii_letter(c) || is_dec_digit(c)
    } else {
        alphanumeric(c)
    }
}

/// `char::is_whitespace`: space and tab through carriage return in ASCII, and
/// outside ASCII the White_Space property.
pub open spec fn is_space(c: char) -> bool {
    if (c as u32) < 128 {
        c == ' ' || ('\t' <= c && c <= '\r')
    } else {
        whitespace(c)
    }
}

/// Relies on char::is_alphabetic, which on ASCII accepts the letters alone.
#[verifier::external_body]
pub(crate) fn char_is_alphabetic(c: char) -> (r: bool)
    ensures
        r == (if (c as u32) < 128 {
            is_ascii_letter(c)
        } else {
            alphabetic(c)
        }),
{
    c.is_alphabetic()
}

/// Relies on char::is_alphanumeric, which on ASCII accepts the letters and digits alone.
#[verifier::external_body]
pub(crate) fn char_is_alphanumeric(c: char) -> (r: bool)
    ensures
        r == (if (c as u32) < 128 {
            is_ascii_letter(c) || is_dec_digit(c)
        } else {
            alphanumeric(c)
        }),
{
    c.is_alphanumeric()
}

/// Relies on char::is_whitespace, which on ASCII accepts space and tab through
/// carriage return alone.
#[verifier::external_body]
pub(crate) fn char_is_whitespace(c: char) -> (r: bool)
    ensures
        r == (if (c as u32) < 128 {
            c == ' ' || ('\t' <= c && c <= '\r')
        } else {
            whitespace(c)
        }),
{
    c.is_whitespace()
}

/// Number of bytes that UTF-8 takes for `c`.
pub open spec fn utf8_width(c: char) -> nat {
    if (c as u32) < 0x80 {
        1
    } else if (c as u32) < 0x800 {
        2
    } else if (c as u32) < 0x10000 {
        3
    } else {
        4
    }
}

/// Number of bytes that UTF-8 takes for `s`.
pub open spec fn utf8_len(s: Seq<char>) -> nat
    decreases s.len(),
{
    if s.len() == 0 {
        0
    } else {
        utf8_len(s.drop_last()) + utf8_width(s.last())
    }
}

/// Relies on str::char_indices: the byte offset at which each character starts.
#[verifier::external_body]
pub(crate) fn char_byte_offsets(s: &str) -> (r: Vec<usize>)
    ensures
        r@.len() == s@.len(),
        forall|k: int| 0 <= k < s@.len() ==> r@[k] == utf8_len(#[trigger] s@.subrange(0, k)),
{
    s.char_indices().map(|(i, _)| i).collect()
}

/// Relies on str::chars, collected into a vector.
#[verifier::external_body]
pub(crate) fn chars_of(s: &str) -> (r: Vec<char>)
    ensures
        r@ == s@,
{
    s.chars().collect()
}

/// Relies on String's FromIterator over characters.
#[verifier::external_body]
pub(crate) fn string_from(v: &Vec<char>, start: usize, end: usize) -> (r: String)
    requires
        start <= end <= v@.len(),
    ensures
        r@ == v@.subrange(start as int, end as int),
{
    v[start..end].iter().collect()
}

/// Whether `v[start..end]` spells exactly `lit`.
pub fn chars_equal(v: &Vec<char>, start: usize, end: usize, lit: &str) -> (r: bool)
    requires
        start <= end <= v@.len(),
    ensures
        r == (v@.subrange(start as int, end as int) == lit@),
{
    let n = lit.unicode_len();
    if end - start != n {
        return false;
    }
    let mut i: usize = 0;
    while i < n
        invariant
            n == lit@.len(),
            end - start == n,
            start <= end <= v@.len(),
            i <= n,
            forall|k: int| 0 <= k < i ==> v@[start + k] == lit@[k],
        decreases n - i,
    {
        if v[start + i] != lit.get_char(i) {
            assert(v@.subrange(start as int, end as int)[i as int] != lit@[i as int]);
            return false;
        }
        i = i + 1;
    }
    assert(v@.subrange(start as int, end as int) =~= lit@);
    true
}

/// Whether two texts are the same character sequence.
pub fn same_text(a: &str, b: &str) -> (r: bool)
    ensures
        r == (a@ == b@),
{
    let n = a.unicode_len();
    if n != b.unicode_len() {
        return false;
    }
    let mut i: usize = 0;
    while i < n
        invariant
            n == a@.len(),
            n == b@.len(),
            i <= n,
            forall|k: int| 0 <= k < i ==> a@[k] == b@[k],
        decreases n - i,
    {
        if a.get_char(i) != b.get_char(i) {
            return false;
        }
        i = i + 1;
    }
    assert(a@ =~= b@);
    true
}

proof fn lemma_dec_str_digits(v: nat)
    ensures
        dec_str(v).len() >= 1,
        forall|k: int| 0 <= k < dec_str(v).len() ==> is_dec_digit(#[trigger] dec_str(v)[k]),
    decreases v,
{
    if v >= 10 {
        lemma_dec_str_digits(v / 10);
    }
}

/// The decimal rendering of a number reads back as that number.
pub proof fn lemma_dec_str_value(v: nat)
    ensures
        dec_value(dec_str(v)) == v,
        forall|k: int| 0 <= k < dec_str(v).len() ==> is_dec_digit(#[trigger] dec_str(v)[k]),
    decreases v,
{
    lemma_dec_str_digits(v);
    if v >= 10 {
        lemma_dec_str_value(v / 10);
        let s = dec_str(v);
        assert(s.drop_last() =~= dec_str(v / 10));
        lemma_digit_char_value(v % 10);
        assert(v == (v / 10) * 10 + v % 10) by (nonlinear_arith);
        assert(s.last() == digit_char(v % 10));
        assert(dec_value(s) == dec_value(s.drop_last()) * 10 + dec_digit_value(s.last()));
        assert(dec_value(s) == (v / 10) * 10 + v % 10);
    } else {
        lemma_digit_char_value(v);
        assert(dec_str(v).drop_last() =~= Seq::<char>::empty());
        assert(dec_value(dec_str(v)) == dec_value(dec_str(v).drop_last()) * 10 + dec_digit_value(dec_str(v).last()));
    }
}

/// Renders `v` in decimal.
pub fn format_u64(v: u64) -> (r: String)
    ensures
        r@ == dec_str(v as nat),
{
    format_u128(v as u128)
}

/// Renders `v` in decimal.
pub fn format_u128(v: u128) -> (r: String)
    ensures
        r@ == dec_str(v as nat),
{
    if v == 0 {
        let z: Vec<char> = vec!['0'];
        assert(z@ =~= dec_str(0));
        return string_from(&z, 0, 1);
    }
    // digits are gathered least significant first
    let mut rev: Vec<char> = Vec::new();
    let mut n: u128 = v;
    while n > 0
        invariant
            dec_str(v as nat) == dec_str_pad(n as nat, rev@),
        decreases n,
    {
        let d = (n % 10) as u32;
        let c = char_from_digit(d);
        proof {
            lemma_dec_str_step(n as nat, rev@);
        }
        rev.push(c);
        n = n / 10;
    }
    let mut out: Vec<char> = Vec::new();
    let mut i: usize = rev.len();
    while i > 0
        invariant
            i <= rev@.len(),
            out@ =~= rev@.subrange(i as int, rev@.len() as int).reverse(),
        decreases i,
    {
        i = i - 1;
        out.push(rev[i]);
        assert(out@ =~= rev@.subrange(i as int, rev@.len() as int).reverse());
    }
    proof {
        lemma_dec_str_pad_zero(rev@);
    }
    string_from(&out, 0, out.len())
}

/// `dec_str(n)` followed by the digits in `rev`, which are stored least significant first.
pub open spec fn dec_str_pad(n: nat, rev: Seq<char>) -> Seq<char> {
    (if n == 0 { Seq::empty() } else { dec_str(n) }) + rev.reverse()
}

proof fn lemma_dec_str_step(n: nat, rev: Seq<char>)
    requires
        n > 0,
    ensures
        dec_str_pad(n, rev) == dec_str_pad(n / 10, rev.push(digit_char(n % 10))),
{
    let r2 = rev.push(digit_char(n % 10));
    assert(r2.reverse() =~= seq![digit_char(n % 10)] + rev.reverse());
    if n >= 10 {
        assert(dec_str(n) == dec_str(n / 10).push(digit_char(n % 10)));
    }
    assert(dec_str_pad(n, rev) =~= dec_str_pad(n / 10, r2));
}

proof fn lemma_dec_str_pad_zero(rev: Seq<char>)
    ensures
        dec_str_pad(0, rev) == rev.subrange(0, rev.len() as int).reverse(),
{
    assert(rev.subrange(0, rev.len() as int) =~= rev);
    assert(dec_str_pad(0, rev) =~= rev.reverse());
}

proof fn lemma_digit_char_value(v: nat)
    requires
        v < 10,
    ensures
        dec_digit_value(digit_char(v)) == v,
        is_dec_digit(digit_char(v)),
{
}

fn char_from_digit(d: u32) -> (c: char)
    requires
        d < 10,
    ensures
        c == digit_char(d as nat),
{
    let c = ('0' as u32 + d) as u8 as char;
    c
}

} // verus!

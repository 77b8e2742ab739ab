//! Character-level helpers and the std string functions the library relies on.

use vstd::prelude::*;
use vstd::utf8::*;

verus! {

/// `String::push`: the character is added at the end.
#[verifier::external_body]
pub fn push_char(s: &mut String, c: char)
    ensures
        final(s)@ == old(s)@.push(c),
{
    s.push(c)
}

/// `str::starts_with` with a string pattern: whether `prefix` is a prefix of `s`.
#[verifier::external_body]
pub fn starts_with(s: &str, prefix: &str) -> (r: bool)
    ensures
        r == (prefix@.len() <= s@.len() && s@.subrange(0, prefix@.len() as int) == prefix@),
{
    s.starts_with(prefix)
}

/// Whether `c` has the Unicode `White_Space` property, the definition of
/// whitespace that `str::trim` and `char::is_whitespace` use.
pub open spec fn is_white_space(c: char) -> bool {
    let u = c as u32;
    ||| 0x9 <= u <= 0xd
    ||| u == 0x20
    ||| u == 0x85
    ||| u == 0xa0
    ||| u == 0x1680
    ||| 0x2000 <= u <= 0x200a
    ||| u == 0x2028
    ||| u == 0x2029
    ||| u == 0x202f
    ||| u == 0x205f
    ||| u == 0x3000
}

/// `s` without its leading whitespace.
pub open spec fn trim_start_spec(s: Seq<char>) -> Seq<char>
    decreases s.len(),
{
    if s.len() > 0 && is_white_space(s[0]) {
        trim_start_spec(s.drop_first())
    } else {
        s
    }
}

/// `s` without its trailing whitespace.
pub open spec fn trim_end_spec(s: Seq<char>) -> Seq<char>
    decreases s.len(),
{
    if s.len() > 0 && is_white_space(s.last()) {
        trim_end_spec(s.drop_last())
    } else {
        s
    }
}

/// `s` without leading and trailing whitespace.
pub open spec fn trim_spec(s: Seq<char>) -> Seq<char> {
    trim_end_spec(trim_start_spec(s))
}

/// Trimming the start keeps a suffix of the text, which starts with a
/// non-whitespace character unless it is empty.
pub proof fn lemma_trim_start_suffix(s: Seq<char>)
    ensures
        trim_start_spec(s).len() <= s.len(),
        trim_start_spec(s) == s.subrange(s.len() - trim_start_spec(s).len(), s.len() as int),
        trim_start_spec(s).len() > 0 ==> !is_white_space(trim_start_spec(s)[0]),
    decreases s.len(),
{
    if s.len() > 0 && is_white_space(s[0]) {
        lemma_trim_start_suffix(s.drop_first());
        let t = trim_start_spec(s.drop_first());
        assert(s.drop_first().subrange(s.len() - 1 - t.len(), s.len() - 1) =~= s.subrange(
            s.len() - t.len(),
            s.len() as int,
        ));
    } else {
        assert(s.subrange(0, s.len() as int) =~= s);
    }
}

/// Trimming the end keeps a prefix of the text, which ends with a
/// non-whitespace character unless it is empty.
pub proof fn lemma_trim_end_prefix(s: Seq<char>)
    ensures
        trim_end_spec(s).len() <= s.len(),
        trim_end_spec(s) == s.subrange(0, trim_end_spec(s).len() as int),
        trim_end_spec(s).len() > 0 ==> !is_white_space(trim_end_spec(s).last()),
    decreases s.len(),
{
    if s.len() > 0 && is_white_space(s.last()) {
        lemma_trim_end_prefix(s.drop_last());
        let t = trim_end_spec(s.drop_last());
        assert(s.drop_last().subrange(0, t.len() as int) =~= s.subrange(0, t.len() as int));
    } else {
        assert(s.subrange(0, s.len() as int) =~= s);
    }
}

/// The trimmed text is a piece of the text that neither starts nor ends
/// with whitespace.
pub proof fn lemma_trim_is_inner(s: Seq<char>)
    ensures
        exists|k: int|
            0 <= k && k + trim_spec(s).len() <= s.len() && #[trigger] s.subrange(
                k,
                k + trim_spec(s).len(),
            ) == trim_spec(s),
        trim_spec(s).len() > 0 ==> !is_white_space(trim_spec(s)[0]) && !is_white_space(
            trim_spec(s).last(),
        ),
{
    lemma_trim_start_suffix(s);
    let a = trim_start_spec(s);
    lemma_trim_end_prefix(a);
    let t = trim_end_spec(a);
    let k = s.len() - a.len();
    assert(s.subrange(k, k + t.len()) =~= t);
    assert(s.subrange(k, k + trim_spec(s).len()) == trim_spec(s));
    if t.len() > 0 {
        assert(t[0] == a[0]);
    }
}

/// Text without surrounding whitespace is left as it is by trimming.
pub proof fn lemma_trim_of_inner(s: Seq<char>)
    requires
        s.len() > 0 ==> !is_white_space(s[0]) && !is_white_space(s.last()),
    ensures
        trim_spec(s) == s,
{
}

/// `str::trim`: the string without leading and trailing whitespace.
#[verifier::external_body]
pub fn trim(s: &str) -> (r: &str)
    ensures
        r@ == trim_spec(s@),
{
    s.trim()
}

/// What `str::to_uppercase` makes of a string: its Unicode uppercase mapping.
pub uninterp spec fn unicode_uppercase(s: Seq<char>) -> Seq<char>;

/// Whether every character of a text is ASCII.
pub open spec fn is_ascii_text(s: Seq<char>) -> bool {
    forall|i: int| 0 <= i < s.len() ==> (#[trigger] s[i] as u32) < 128
}

/// The uppercase of an ASCII character: `a` to `z` become `A` to `Z`, every
/// other character stays.
pub open spec fn ascii_upper(c: char) -> char {
    if 'a' <= c <= 'z' {
        ((c as u32) - 32) as char
    } else {
        c
    }
}

/// A text with each character uppercased as ASCII.
pub open spec fn ascii_uppercase(s: Seq<char>) -> Seq<char> {
    s.map_values(|c: char| ascii_upper(c))
}

/// ASCII uppercasing keeps a text ASCII, changes nothing a second time, and
/// turns no character into whitespace or out of it.
pub proof fn lemma_ascii_uppercase(s: Seq<char>)
    requires
        is_ascii_text(s),
    ensures
        is_ascii_text(ascii_uppercase(s)),
        ascii_uppercase(ascii_uppercase(s)) == ascii_uppercase(s),
        ascii_uppercase(s).len() == s.len(),
        forall|i: int|
            0 <= i < s.len() ==> is_white_space(#[trigger] ascii_uppercase(s)[i]) == is_white_space(
                s[i],
            ),
{
    let u = ascii_uppercase(s);
    assert forall|i: int| 0 <= i < u.len() implies (#[trigger] u[i] as u32) < 128 by {
        assert((s[i] as u32) < 128);
    }
    assert(ascii_uppercase(u) =~= u);
}

/// `str::to_uppercase`. The full Unicode case mapping is not written out;
/// the result is the named mapping of the argument. On ASCII text it is the
/// ASCII mapping: `a` to `z` become `A` to `Z`, every other character stays.
#[verifier::external_body]
pub fn to_uppercase(s: &str) -> (r: String)
    ensures
        r@ == unicode_uppercase(s@),
        is_ascii_text(s@) ==> r@ == ascii_uppercase(s@),
{
    s.to_uppercase()
}

/// What `String::from_utf8_lossy` makes of a byte string.
pub uninterp spec fn utf8_lossy(bytes: Seq<u8>) -> Seq<char>;

/// `String::from_utf8_lossy`, made owned. The result is the named decoding of
/// the bytes; on valid UTF-8 it is exactly the text the bytes encode. How
/// invalid sequences are replaced is not stated.
#[verifier::external_body]
pub fn decode_utf8_lossy(bytes: &[u8]) -> (s: String)
    ensures
        s@ == utf8_lossy(bytes@),
        valid_utf8(bytes@) ==> s@ == decode_utf8(bytes@),
{
    String::from_utf8_lossy(bytes).into_owned()
}

/// The text a reader of `bytes` sees: the exact decoding when the bytes are
/// valid UTF-8, the lossy one otherwise.
pub open spec fn text_of_bytes(bytes: Seq<u8>) -> Seq<char> {
    if valid_utf8(bytes) {
        decode_utf8(bytes)
    } else {
        utf8_lossy(bytes)
    }
}

/// Decodes bytes as `String::from_utf8_lossy` does.
pub fn lossy_text(bytes: &[u8]) -> (s: String)
    ensures
        s@ == text_of_bytes(bytes@),
{
    decode_utf8_lossy(bytes)
}

/// Appends every character of `s` to `out`.
pub fn append_str(out: &mut String, s: &str)
    ensures
        final(out)@ == old(out)@ + s@,
{
    let ghost start = out@;
    let ghost chars = s@;
    for c in iter: s.chars()
        invariant
            iter.seq() == chars,
            out@ == start + chars.take(iter.index() as int),
    {
        proof {
            assert(chars.take(iter.index() + 1) == chars.take(iter.index() as int).push(c));
        }
        push_char(out, c);
        proof {
            assert(out@ =~= start + chars.take(iter.index() + 1));
        }
    }
    proof {
        assert(chars.take(chars.len() as int) == chars);
    }
}

/// The UTF-8 bytes of a string, as a vector.
pub fn utf8_bytes(s: &str) -> (r: Vec<u8>)
    ensures
        r@ == encode_utf8(s@),
{
    vstd::slice::slice_to_vec(s.as_bytes())
}

/// Decimal digits of `n`, most significant first, without leading zeros.
pub open spec fn decimal_digits(n: nat) -> Seq<char>
    decreases n,
{
    if n < 10 {
        seq![digit_char(n)]
    } else {
        decimal_digits(n / 10).push(digit_char(n % 10))
    }
}

pub open spec fn digit_char(d: nat) -> char {
    if d == 0 {
        '0'
    } else if d == 1 {
        '1'
    } else if d == 2 {
        '2'
    } else if d == 3 {
        '3'
    } else if d == 4 {
        '4'
    } else if d == 5 {
        '5'
    } else if d == 6 {
        '6'
    } else if d == 7 {
        '7'
    } else if d == 8 {
        '8'
    } else {
        '9'
    }
}

fn digit(d: u128) -> (c: char)
    requires
        d < 10,
    ensures
        c == digit_char(d as nat),
{
    if d == 0 {
        '0'
    } else if d == 1 {
        '1'
    } else if d == 2 {
        '2'
    } else if d == 3 {
        '3'
    } else if d == 4 {
        '4'
    } else if d == 5 {
        '5'
    } else if d == 6 {
        '6'
    } else if d == 7 {
        '7'
    } else if d == 8 {
        '8'
    } else {
        '9'
    }
}

/// The digit characters are the ASCII digits, in order: `d` is written as
/// the character with code 48 + `d`.
pub proof fn lemma_digit_char_is_ascii_digit(d: nat)
    requires
        d < 10,
    ensures
        digit_char(d) as u32 == 48 + d,
{
}

/// Reading the decimal text of `n` back as a number gives `n`: it is made
/// of ASCII digits only, its digits' values make up `n`, and it has no
/// leading zero.
pub proof fn lemma_decimal_digits_read_back(n: nat)
    ensures
        decimal_digits(n).len() >= 1,
        forall|i: int|
            0 <= i < decimal_digits(n).len() ==> crate::stress::is_digit(#[trigger] decimal_digits(n)[i]),
        crate::stress::digits_value(decimal_digits(n)) == n,
        decimal_digits(n).len() > 1 ==> decimal_digits(n)[0] != '0',
    decreases n,
{
    if n < 10 {
        lemma_digit_char_is_ascii_digit(n);
        let s = decimal_digits(n);
        assert(s.drop_last() =~= Seq::<char>::empty());
        assert(crate::stress::digits_value(Seq::<char>::empty()) == 0);
        assert(crate::stress::digits_value(s) == crate::stress::digit_value(digit_char(n)));
    } else {
        lemma_decimal_digits_read_back(n / 10);
        lemma_digit_char_is_ascii_digit(n % 10);
        let s = decimal_digits(n / 10);
        let c = digit_char(n % 10);
        crate::stress::lemma_digits_value_grows(s, c);
        let t = decimal_digits(n);
        assert(t == s.push(c));
        assert forall|i: int| 0 <= i < t.len() implies crate::stress::is_digit(#[trigger] t[i]) by {
            if i < s.len() {
                assert(t[i] == s[i]);
            }
        }
        if n / 10 < 10 {
            assert(s[0] == digit_char(n / 10));
            lemma_digit_char_is_ascii_digit(n / 10);
        } else {
            lemma_decimal_digits_read_back(n / 10 / 10);
            assert(s.len() > 1);
        }
        assert(t[0] == s[0]);
        assert(crate::stress::digit_value(c) == n % 10);
        assert(crate::stress::digits_value(t) == (n / 10) * 10 + n % 10);
    }
}

/// Appends the decimal form of `n` (as `{}` formats it) to `out`.
pub fn push_decimal(out: &mut String, n: u128)
    ensures
        final(out)@ == old(out)@ + decimal_digits(n as nat),
    decreases n,
{
    if n < 10 {
        push_char(out, digit(n));
    } else {
        push_decimal(out, n / 10);
        push_char(out, digit(n % 10));
    }
}

/// `s` padded on the left with zeros to at least `width` characters.
pub open spec fn zero_padded(s: Seq<char>, width: nat) -> Seq<char> {
    if s.len() < width {
        Seq::new((width - s.len()) as nat, |i: int| '0') + s
    } else {
        s
    }
}

/// Appends `n` formatted as `{:0width$}` (digits, zero-padded on the left).
pub fn push_padded(out: &mut String, n: u128, width: usize)
    ensures
        final(out)@ == old(out)@ + zero_padded(decimal_digits(n as nat), width as nat),
{
    let mut digits = String::new();
    push_decimal(&mut digits, n);
    let count = digits.as_str().unicode_len();
    let ghost start = out@;
    let mut i: usize = count;
    while i < width
        invariant
            count == decimal_digits(n as nat).len(),
            count <= i <= width || (count > width && i == count),
            out@ == start + Seq::new((i - count) as nat, |k: int| '0'),
        decreases width - i,
    {
        push_char(out, '0');
        i = i + 1;
        assert(out@ =~= start + Seq::new((i - count) as nat, |k: int| '0'));
    }
    append_str(out, digits.as_str());
    assert(out@ =~= start + zero_padded(decimal_digits(n as nat), width as nat));
}

} // verus!

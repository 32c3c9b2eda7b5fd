//! Text forms of numbers, and the few operations on strings that come from the standard library.
use vstd::prelude::*;
use vstd::utf8::{encode_utf8, is_char_boundary};

verus! {

pub open spec fn digit_char(n: int) -> char {
    (n + 48) as char
}

pub open spec fn is_digit_char(c: char) -> bool {
    48 <= (c as int) <= 57
}

/// The decimal digits of `n`, without leading zeros.
pub open spec fn decimal_text(n: nat) -> Seq<char>
    decreases n,
{
    if n < 10 {
        seq![digit_char(n as int)]
    } else {
        decimal_text(n / 10).push(digit_char((n % 10) as int))
    }
}

/// The decimal text of `n`, with a leading `-` when it is negative.
pub open spec fn signed_decimal_text(n: int) -> Seq<char> {
    if n < 0 {
        seq!['-'] + decimal_text((-n) as nat)
    } else {
        decimal_text(n as nat)
    }
}

pub open spec fn hex_digit_char(n: int) -> char {
    if n < 10 {
        (n + 48) as char
    } else {
        (n - 10 + 97) as char
    }
}

/// The lower-case hexadecimal digits of `n`, without leading zeros.
pub open spec fn hex_text(n: nat) -> Seq<char>
    decreases n,
{
    if n < 16 {
        seq![hex_digit_char(n as int)]
    } else {
        hex_text(n / 16).push(hex_digit_char((n % 16) as int))
    }
}

/// A lower-case hexadecimal digit.
pub open spec fn is_hex_digit_char(c: char) -> bool {
    48 <= (c as int) <= 57 || 97 <= (c as int) <= 102
}

/// The hexadecimal text of a number is not empty, holds only hexadecimal digits, and starts with
/// `0` only when the number is 0.
pub proof fn lemma_hex_text_form(n: nat)
    ensures
        hex_text(n).len() > 0,
        forall|i: int| 0 <= i < hex_text(n).len() ==> is_hex_digit_char(#[trigger] hex_text(n)[i]),
        hex_text(n)[0] == '0' ==> n == 0 && hex_text(n) == seq!['0'],
    decreases n,
{
    if n >= 16 {
        lemma_hex_text_form(n / 16);
        let p = hex_text(n / 16);
        assert forall|i: int| 0 <= i < hex_text(n).len() implies is_hex_digit_char(#[trigger] hex_text(n)[i]) by {
            if i < p.len() {
                assert(hex_text(n)[i] == p[i]);
            }
        }
        assert(hex_text(n)[0] == p[0]);
    }
}

/// Different numbers have different hexadecimal texts.
pub proof fn lemma_hex_text_injective(a: nat, b: nat)
    requires
        a != b,
    ensures
        hex_text(a) != hex_text(b),
    decreases a,
{
    if a < 16 && b < 16 {
        assert(hex_text(a)[0] != hex_text(b)[0]);
    } else if a < 16 {
        lemma_hex_text_form(b / 16);
        assert(hex_text(b).len() >= 2);
    } else if b < 16 {
        lemma_hex_text_form(a / 16);
        assert(hex_text(a).len() >= 2);
    } else {
        let ta = hex_text(a);
        let tb = hex_text(b);
        if ta == tb {
            assert(ta.last() == tb.last());
            assert(hex_digit_char((a % 16) as int) == hex_digit_char((b % 16) as int));
            assert(a % 16 == b % 16);
            assert(ta.drop_last() =~= hex_text(a / 16));
            assert(tb.drop_last() =~= hex_text(b / 16));
            if a / 16 != b / 16 {
                lemma_hex_text_injective(a / 16, b / 16);
            }
            assert(a == (a / 16) * 16 + a % 16);
            assert(b == (b / 16) * 16 + b % 16);
        }
    }
}

/// `s` preceded by as many zeros as make it at least `width` characters long.
pub open spec fn zero_padded(s: Seq<char>, width: nat) -> Seq<char> {
    if s.len() >= width {
        s
    } else {
        Seq::new((width - s.len()) as nat, |i: int| '0') + s
    }
}

/// The value of a non-empty run of decimal digits.
pub open spec fn digits_value(s: Seq<char>) -> int
    decreases s.len(),
{
    if s.len() == 0 {
        0
    } else {
        digits_value(s.drop_last()) * 10 + (s.last() as int - 48)
    }
}

pub open spec fn all_digits(s: Seq<char>) -> bool {
    s.len() > 0 && forall|i: int| 0 <= i < s.len() ==> is_digit_char(#[trigger] s[i])
}

/// The integer that `s` writes: an optional `+` or `-` followed by at least one decimal digit.
pub open spec fn integer_text_value(s: Seq<char>) -> Option<int> {
    let neg = s.len() > 0 && s[0] == '-';
    let signed = s.len() > 0 && (s[0] == '-' || s[0] == '+');
    let body = if signed { s.skip(1) } else { s };
    if all_digits(body) {
        Some(if neg { -digits_value(body) } else { digits_value(body) })
    } else {
        None
    }
}

/// What parsing `s` as an `i64` gives: its integer, when it writes one that fits.
pub open spec fn parsed_i64(s: Seq<char>) -> Option<i64> {
    match integer_text_value(s) {
        Some(v) => if i64::MIN <= v <= i64::MAX { Some(v as i64) } else { None },
        None => None,
    }
}

/// The decimal text of a number is a run of digits whose value is the number.
pub proof fn lemma_decimal_text_value(n: nat)
    ensures
        all_digits(decimal_text(n)),
        digits_value(decimal_text(n)) == n,
    decreases n,
{
    if n >= 10 {
        lemma_decimal_text_value(n / 10);
        let t = decimal_text(n);
        assert(t.drop_last() =~= decimal_text(n / 10));
        assert(t.last() == digit_char((n % 10) as int));
        assert((digit_char((n % 10) as int) as int) == n % 10 + 48);
        assert((n / 10) * 10 + n % 10 == n) by (nonlinear_arith);
        assert(digits_value(t) == digits_value(t.drop_last()) * 10 + (t.last() as int - 48));
        assert(digits_value(t.drop_last()) == n / 10);
        assert(digits_value(t) == n);
        assert forall|i: int| 0 <= i < t.len() implies is_digit_char(#[trigger] t[i]) by {
            if i < t.len() - 1 {
                assert(t[i] == decimal_text(n / 10)[i]);
            }
        }
    } else {
        let t = decimal_text(n);
        assert(t.drop_last() =~= Seq::<char>::empty());
        assert((digit_char(n as int) as int) == n + 48);
        assert(digits_value(t.drop_last()) == 0);
        assert(digits_value(t) == digits_value(t.drop_last()) * 10 + (t.last() as int - 48));
    }
}

/// Parsing the decimal text of an `i64` gives it back.
pub proof fn lemma_parsed_i64_of_text(n: i64)
    ensures
        parsed_i64(signed_decimal_text(n as int)) == Some(n),
{
    if n < 0 {
        let m = (-(n as int)) as nat;
        lemma_decimal_text_value(m);
        let s = signed_decimal_text(n as int);
        assert(s.skip(1) =~= decimal_text(m));
        assert(s[0] == '-');
    } else {
        lemma_decimal_text_value(n as nat);
        let s = decimal_text(n as nat);
        assert(is_digit_char(s[0]));
    }
}

/// What `str::to_lowercase` makes of a text (Unicode lower-case mapping).
pub uninterp spec fn lowercase_text(s: Seq<char>) -> Seq<char>;

/// A text of ASCII characters only.
pub open spec fn is_ascii_text(s: Seq<char>) -> bool {
    forall|i: int| 0 <= i < s.len() ==> (#[trigger] s[i] as int) < 128
}

/// The lower-case form of an ASCII letter; any other character as it is.
pub open spec fn ascii_lower(c: char) -> char {
    if 65 <= (c as int) <= 90 {
        ((c as int) + 32) as char
    } else {
        c
    }
}

/// A text with its ASCII capitals made lower case.
pub open spec fn ascii_lowercase(s: Seq<char>) -> Seq<char> {
    s.map_values(|c: char| ascii_lower(c))
}

/// A character with the Unicode `White_Space` property: tab, line feed, vertical tab, form feed,
/// carriage return, space, next line, no-break space, ogham space mark, the spaces from en quad to
/// hair space, line and paragraph separators, narrow no-break space, medium mathematical space
/// and ideographic space.
pub open spec fn is_white_space(c: char) -> bool {
    let u = c as int;
    ||| 0x09 <= u <= 0x0D
    ||| u == 0x20 || u == 0x85 || u == 0xA0 || u == 0x1680
    ||| 0x2000 <= u <= 0x200A
    ||| u == 0x2028 || u == 0x2029 || u == 0x202F || u == 0x205F || u == 0x3000
}

/// `s` without its leading white space.
pub open spec fn trim_start_text(s: Seq<char>) -> Seq<char>
    decreases s.len(),
{
    if s.len() > 0 && is_white_space(s[0]) {
        trim_start_text(s.drop_first())
    } else {
        s
    }
}

/// `s` without its trailing white space.
pub open spec fn trim_end_text(s: Seq<char>) -> Seq<char>
    decreases s.len(),
{
    if s.len() > 0 && is_white_space(s.last()) {
        trim_end_text(s.drop_last())
    } else {
        s
    }
}

/// `s` without its leading and trailing white space.
pub open spec fn trimmed_text(s: Seq<char>) -> Seq<char> {
    trim_end_text(trim_start_text(s))
}

/// A text trims to nothing exactly when all its characters are white space.
pub proof fn lemma_trimmed_empty(s: Seq<char>)
    ensures
        trimmed_text(s).len() == 0 <==> forall|i: int| 0 <= i < s.len() ==> is_white_space(#[trigger] s[i]),
    decreases s.len(),
{
    if s.len() > 0 && is_white_space(s[0]) {
        lemma_trimmed_empty(s.drop_first());
        assert forall|i: int| 0 < i < s.len() implies s[i] == s.drop_first()[i - 1] by {}
        if forall|i: int| 0 <= i < s.drop_first().len() ==> is_white_space(#[trigger] s.drop_first()[i]) {
            assert forall|i: int| 0 <= i < s.len() implies is_white_space(#[trigger] s[i]) by {
                if i > 0 {
                    assert(s[i] == s.drop_first()[i - 1]);
                }
            }
        } else {
            let k = choose|k: int| 0 <= k < s.drop_first().len() && !is_white_space(#[trigger] s.drop_first()[k]);
            assert(s[k + 1] == s.drop_first()[k]);
        }
    } else if s.len() > 0 {
        assert(trim_start_text(s) == s);
        lemma_trim_end_keeps_first(s);
    }
}

/// Trimming the end of a text that starts with a character other than white space keeps that
/// character.
proof fn lemma_trim_end_keeps_first(s: Seq<char>)
    requires
        s.len() > 0,
        !is_white_space(s[0]),
    ensures
        trim_end_text(s).len() > 0,
    decreases s.len(),
{
    if s.len() > 1 && is_white_space(s.last()) {
        assert(s.drop_last()[0] == s[0]);
        lemma_trim_end_keeps_first(s.drop_last());
    }
}

/// Calls `i64::to_string`, whose result is the decimal text of `n`, signed when negative.
#[verifier::external_body]
pub(crate) fn i64_text(n: i64) -> (r: String)
    ensures
        r@ == signed_decimal_text(n as int),
{
    n.to_string()
}

/// Calls `usize::to_string`, whose result is the decimal text of `n`.
#[verifier::external_body]
pub(crate) fn usize_text(n: usize) -> (r: String)
    ensures
        r@ == decimal_text(n as nat),
{
    n.to_string()
}

/// Formats `n` with `{:x}`: its lower-case hexadecimal digits without prefix or padding.
#[verifier::external_body]
pub(crate) fn u128_hex_text(n: u128) -> (r: String)
    ensures
        r@ == hex_text(n as nat),
{
    format!("{:x}", n)
}

/// Calls `str::parse::<i64>`: an optional sign and decimal digits, nothing else, whose value
/// fits in an `i64`.
#[verifier::external_body]
pub(crate) fn parse_i64(s: &str) -> (r: Option<i64>)
    ensures
        r == parsed_i64(s@),
{
    s.parse::<i64>().ok()
}

/// Calls `str::to_lowercase`; the result is named by `lowercase_text`. On ASCII text it makes
/// the capitals A to Z lower case and leaves every other character as it is.
#[verifier::external_body]
pub(crate) fn to_lowercase(s: &str) -> (r: String)
    ensures
        r@ == lowercase_text(s@),
        is_ascii_text(s@) ==> r@ == ascii_lowercase(s@),
{
    s.to_lowercase()
}

/// Calls `str::trim`: the text without its leading and trailing `White_Space` characters.
#[verifier::external_body]
pub(crate) fn trim(s: &str) -> (r: &str)
    ensures
        r@ == trimmed_text(s@),
{
    s.trim()
}


/// Compares two string slices with `==`: equal exactly when they hold the same characters.
#[verifier::external_body]
pub(crate) fn str_equal(a: &str, b: &str) -> (r: bool)
    ensures
        r == (a@ == b@),
{
    a == b
}


/// The UTF-8 bytes of a text.
pub open spec fn utf8(s: Seq<char>) -> Seq<u8> {
    encode_utf8(s)
}

/// Calls `String::insert`: `c` goes in at byte position `idx`, which must start a character or be
/// the end of the text.
#[verifier::external_body]
pub(crate) fn string_insert(s: &mut String, idx: usize, c: char)
    requires
        is_char_boundary(utf8(old(s)@), idx as int),
    ensures
        utf8(final(s)@) == utf8(old(s)@).take(idx as int) + utf8(seq![c]) + utf8(old(s)@).skip(idx as int),
{
    s.insert(idx, c)
}

/// Calls `String::remove`: takes out the character that starts at byte position `idx` and returns it.
#[verifier::external_body]
pub(crate) fn string_remove(s: &mut String, idx: usize) -> (r: char)
    requires
        idx < utf8(old(s)@).len(),
        is_char_boundary(utf8(old(s)@), idx as int),
    ensures
        idx + utf8(seq![r]).len() <= utf8(old(s)@).len(),
        utf8(old(s)@).subrange(idx as int, idx + utf8(seq![r]).len()) == utf8(seq![r]),
        utf8(final(s)@) == utf8(old(s)@).take(idx as int) + utf8(old(s)@).skip(idx + utf8(seq![r]).len()),
{
    s.remove(idx)
}

/// Calls `String::len`: the length of the text in bytes, which no allocation lets exceed
/// `isize::MAX`.
#[verifier::external_body]
pub(crate) fn string_len(s: &String) -> (r: usize)
    ensures
        r == utf8(s@).len(),
        r <= isize::MAX,
{
    s.len()
}

/// Calls `String::push`: appends `c`.
#[verifier::external_body]
pub(crate) fn string_push(s: &mut String, c: char)
    ensures
        final(s)@ == old(s)@.push(c),
{
    s.push(c)
}

/// Calls `String::push_str`: appends the characters of `t`.
#[verifier::external_body]
pub(crate) fn string_push_str(s: &mut String, t: &str)
    ensures
        final(s)@ == old(s)@ + t@,
{
    s.push_str(t)
}

/// Calls `String::pop`: removes and returns the last character, if there is one.
#[verifier::external_body]
pub(crate) fn string_pop(s: &mut String) -> (r: Option<char>)
    ensures
        old(s)@.len() == 0 ==> r is None && final(s)@ == old(s)@,
        old(s)@.len() > 0 ==> r == Some(old(s)@.last()) && final(s)@ == old(s)@.drop_last(),
{
    s.pop()
}

} // verus!

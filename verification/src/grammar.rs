//! The shape of a token: decimal digits, then letters, and nothing else.
//!
//! A token such as `10sec` is a numeral directly followed by a unit spelling.
//! This module says which texts are of that shape, where the numeral ends and
//! what the numeral is worth. The shape alone makes no duration: it admits a
//! text with no digit and a numeral of any length, and a duration is a text
//! of this shape whose numeral has a value.
use vstd::prelude::*;
use vstd::string::*;
use vstd::utf8::*;

verus! {

/// An ASCII decimal digit.
pub open spec fn is_digit(c: char) -> bool {
    '0' <= c <= '9'
}

/// An ASCII letter of either case.
pub open spec fn is_letter(c: char) -> bool {
    ('a' <= c <= 'z') || ('A' <= c <= 'Z')
}

/// Every character of `s` is a digit.
pub open spec fn all_digits(s: Seq<char>) -> bool {
    forall|i: int| 0 <= i < s.len() ==> is_digit(#[trigger] s[i])
}

/// Every character of `s` is a letter.
pub open spec fn all_letters(s: Seq<char>) -> bool {
    forall|i: int| 0 <= i < s.len() ==> is_letter(#[trigger] s[i])
}

/// The number of digits that `s` begins with.
pub open spec fn leading_digits(s: Seq<char>) -> nat
    decreases s.len(),
{
    if s.len() > 0 && is_digit(s.first()) {
        1 + leading_digits(s.drop_first())
    } else {
        0
    }
}

/// The digits that `s` begins with.
pub open spec fn numeral_of(s: Seq<char>) -> Seq<char> {
    s.take(leading_digits(s) as int)
}

/// What follows the leading digits of `s`.
pub open spec fn suffix_of(s: Seq<char>) -> Seq<char> {
    s.skip(leading_digits(s) as int)
}

/// The bare shape: after its leading digits `s` holds letters only. There
/// may be no digit, no letter, or neither.
pub open spec fn well_formed(s: Seq<char>) -> bool {
    all_letters(suffix_of(s))
}

/// The leading digits never run past the end of the text, and they are digits.
pub proof fn lemma_leading_digits_bound(s: Seq<char>)
    ensures
        leading_digits(s) <= s.len(),
        all_digits(numeral_of(s)),
        leading_digits(s) < s.len() ==> !is_digit(s[leading_digits(s) as int]),
    decreases s.len(),
{
    if s.len() > 0 && is_digit(s.first()) {
        let rest = s.drop_first();
        lemma_leading_digits_bound(rest);
        let k = leading_digits(rest) as int;
        assert forall|i: int| 0 <= i < numeral_of(s).len() implies is_digit(
            #[trigger] numeral_of(s)[i],
        ) by {
            if i > 0 {
                assert(numeral_of(s)[i] == numeral_of(rest)[i - 1]);
            }
        }
        if k + 1 < s.len() {
            assert(s[k + 1] == rest[k]);
        }
    }
}

/// A run of `k` digits that ends the text, or that something other than a
/// digit follows, is the whole run of leading digits.
pub proof fn lemma_leading_digits_is(s: Seq<char>, k: int)
    requires
        0 <= k <= s.len(),
        forall|i: int| 0 <= i < k ==> is_digit(#[trigger] s[i]),
        k < s.len() ==> !is_digit(s[k]),
    ensures
        leading_digits(s) == k,
    decreases k,
{
    if k > 0 {
        let rest = s.drop_first();
        assert(is_digit(s[0]));
        assert forall|i: int| 0 <= i < k - 1 implies is_digit(#[trigger] rest[i]) by {
            assert(rest[i] == s[i + 1]);
        }
        if k - 1 < rest.len() {
            assert(rest[k - 1] == s[k]);
        }
        lemma_leading_digits_is(rest, k - 1);
    }
}

/// A text has the shape exactly when it can be cut into digits and letters,
/// and then the cut is the one that `numeral_of` and `suffix_of` make.
pub proof fn lemma_split_unique(s: Seq<char>, digits: Seq<char>, letters: Seq<char>)
    requires
        s == digits + letters,
        all_digits(digits),
        all_letters(letters),
    ensures
        well_formed(s),
        numeral_of(s) == digits,
        suffix_of(s) == letters,
{
    let k = digits.len() as int;
    assert forall|i: int| 0 <= i < k implies is_digit(#[trigger] s[i]) by {
        assert(s[i] == digits[i]);
    }
    if k < s.len() {
        assert(s[k] == letters[0]);
        assert(is_letter(letters[0]));
    }
    lemma_leading_digits_is(s, k);
    assert(s.take(k) =~= digits);
    assert(s.skip(k) =~= letters);
}

/// Every text is its numeral followed by its suffix, and the numeral is made
/// of digits. In a text of the shape the suffix is made of letters.
pub proof fn lemma_well_formed_parts(s: Seq<char>)
    ensures
        s == numeral_of(s) + suffix_of(s),
        all_digits(numeral_of(s)),
        well_formed(s) <==> all_letters(suffix_of(s)),
        suffix_of(s).len() > 0 ==> !is_digit(suffix_of(s)[0]),
{
    lemma_leading_digits_bound(s);
    assert(s =~= numeral_of(s) + suffix_of(s));
}

/// The byte of the digit `0`.
const ZERO: u8 = 48;

fn digit_byte(b: u8) -> (r: bool)
    ensures
        r == is_digit(b as char),
{
    let c = b as char;
    '0' <= c && c <= '9'
}

fn letter_byte(b: u8) -> (r: bool)
    ensures
        r == is_letter(b as char),
{
    let c = b as char;
    ('a' <= c && c <= 'z') || ('A' <= c && c <= 'Z')
}

/// A text with a character beyond ASCII has not the shape.
proof fn lemma_well_formed_is_ascii(s: Seq<char>)
    requires
        well_formed(s),
    ensures
        is_ascii_chars(s),
{
    lemma_leading_digits_bound(s);
    let k = leading_digits(s) as int;
    assert forall|i: int| 0 <= i < s.len() implies '\0' <= #[trigger] s[i] <= '\u{7f}' by {
        if i < k {
            assert(s[i] == numeral_of(s)[i]);
        } else {
            assert(s[i] == suffix_of(s)[i - k]);
        }
    }
}

/// Cuts a text of the bare shape into its digits and its letters.
///
/// The result is `Some` exactly for the texts made of digits, then letters.
/// Either part may be empty, and so may both: this is the shape alone, and
/// whether the text is a duration is for `classify` to say.
pub fn split(token: &str) -> (parts: Option<(String, String)>)
    ensures
        parts is Some <==> well_formed(token@),
        parts matches Some(p) ==> p.0@ == numeral_of(token@) && p.1@ == suffix_of(token@),
{
    broadcast use is_ascii_spec_bytes;

    if !token.is_ascii() {
        proof {
            if well_formed(token@) {
                lemma_well_formed_is_ascii(token@);
            }
        }
        return None;
    }
    let bytes = token.as_bytes();
    let n = bytes.len();
    assert(n == token@.len());
    assert forall|i: int| 0 <= i < n implies #[trigger] bytes@[i] as char == token@[i] by {
        assert(bytes@[i] == token@[i] as u8);
    }
    let mut k: usize = 0;
    while k < n && digit_byte(bytes[k])
        invariant
            k <= n,
            n == token@.len(),
            n == bytes@.len(),
            forall|i: int| 0 <= i < n ==> #[trigger] bytes@[i] as char == token@[i],
            forall|i: int| 0 <= i < k ==> is_digit(#[trigger] token@[i]),
        decreases n - k,
    {
        k = k + 1;
    }
    proof {
        lemma_leading_digits_is(token@, k as int);
    }
    let mut j: usize = k;
    while j < n && letter_byte(bytes[j])
        invariant
            k <= j <= n,
            n == token@.len(),
            n == bytes@.len(),
            forall|i: int| 0 <= i < n ==> #[trigger] bytes@[i] as char == token@[i],
            forall|i: int| k <= i < j ==> is_letter(#[trigger] token@[i]),
        decreases n - j,
    {
        j = j + 1;
    }
    if j < n {
        proof {
            assert(suffix_of(token@)[j - k] == token@[j as int]);
        }
        return None;
    }
    proof {
        assert forall|i: int| 0 <= i < suffix_of(token@).len() implies is_letter(
            #[trigger] suffix_of(token@)[i],
        ) by {
            assert(suffix_of(token@)[i] == token@[k + i]);
        }
    }
    let numeral = token.substring_ascii(0, k).to_owned();
    let suffix = token.substring_ascii(k, n).to_owned();
    Some((numeral, suffix))
}

/// What a digit is worth.
pub open spec fn digit_value(c: char) -> nat {
    (c as int - '0' as int) as nat
}

/// The number that a run of digits writes in base ten. The empty run writes 0.
pub open spec fn decimal(s: Seq<char>) -> nat
    decreases s.len(),
{
    if s.len() == 0 {
        0
    } else {
        10 * decimal(s.drop_last()) + digit_value(s.last())
    }
}

/// The value of a numeral: of a run of one or more digits whose number fits
/// in 64 bits. Nothing else has a value.
pub open spec fn value_of(s: Seq<char>) -> Option<u64> {
    if s.len() > 0 && all_digits(s) && decimal(s) <= u64::MAX {
        Some(decimal(s) as u64)
    } else {
        None
    }
}

/// A numeral is worth at least as much as each of its beginnings.
pub proof fn lemma_decimal_grows(s: Seq<char>, k: int)
    requires
        0 <= k <= s.len(),
    ensures
        decimal(s.take(k)) <= decimal(s),
    decreases s.len() - k,
{
    if k < s.len() {
        lemma_decimal_grows(s, k + 1);
        assert(s.take(k + 1).drop_last() =~= s.take(k));
    } else {
        assert(s.take(k) =~= s);
    }
}

/// Reads a numeral.
///
/// The result is the number that `numeral` writes in base ten, where
/// `numeral` is made of digits, at least one, and the number fits in 64 bits.
/// A sign, a blank or any other character, and a number too large, give `None`.
pub fn decimal_value(numeral: &str) -> (value: Option<u64>)
    ensures
        value == value_of(numeral@),
{
    broadcast use is_ascii_spec_bytes;

    if !numeral.is_ascii() {
        proof {
            if all_digits(numeral@) {
                assert forall|i: int| 0 <= i < numeral@.len() implies '\0'
                    <= #[trigger] numeral@[i] <= '\u{7f}' by {
                    assert(is_digit(numeral@[i]));
                }
            }
        }
        return None;
    }
    let bytes = numeral.as_bytes();
    let n = bytes.len();
    assert(n == numeral@.len());
    assert forall|i: int| 0 <= i < n implies #[trigger] bytes@[i] as char == numeral@[i] by {
        assert(bytes@[i] == numeral@[i] as u8);
    }
    if n == 0 {
        return None;
    }
    let mut total: u64 = 0;
    let mut i: usize = 0;
    while i < n
        invariant
            i <= n,
            n == numeral@.len(),
            n == bytes@.len(),
            forall|j: int| 0 <= j < n ==> #[trigger] bytes@[j] as char == numeral@[j],
            forall|j: int| 0 <= j < i ==> is_digit(#[trigger] numeral@[j]),
            total == decimal(numeral@.take(i as int)),
        decreases n - i,
    {
        let b = bytes[i];
        if !digit_byte(b) {
            return None;
        }
        let d: u64 = (b - ZERO) as u64;
        proof {
            assert(numeral@.take(i + 1).drop_last() =~= numeral@.take(i as int));
            assert(numeral@.take(i + 1).last() == numeral@[i as int]);
            assert(d == digit_value(numeral@[i as int]));
        }
        if total > (u64::MAX - d) / 10 {
            proof {
                lemma_decimal_grows(numeral@, i + 1);
            }
            return None;
        }
        total = total * 10 + d;
        i = i + 1;
    }
    proof {
        assert(numeral@.take(n as int) =~= numeral@);
    }
    Some(total)
}

/// The digit that is worth `d`, for `d` below ten.
pub open spec fn digit_of(d: nat) -> char {
    ('0' as int + d) as char
}

/// A number written in base ten: its digits, the most significant first,
/// with no leading zero. Zero is written `0`.
pub open spec fn base_ten(value: nat) -> Seq<char>
    decreases value,
{
    if value < 10 {
        seq![digit_of(value)]
    } else {
        base_ten(value / 10).push(digit_of(value % 10))
    }
}

/// A number written in base ten is a run of digits that is worth the number,
/// and only zero is written with a zero in front.
pub proof fn lemma_base_ten(value: nat)
    ensures
        base_ten(value).len() > 0,
        all_digits(base_ten(value)),
        decimal(base_ten(value)) == value,
        value > 0 ==> base_ten(value)[0] != '0',
    decreases value,
{
    if value < 10 {
        let text = base_ten(value);
        assert(text.drop_last() =~= Seq::empty());
        assert(decimal(text.drop_last()) == 0);
        assert(digit_value(text.last()) == value);
    } else {
        let front = base_ten(value / 10);
        let text = base_ten(value);
        lemma_base_ten(value / 10);
        assert(text.drop_last() =~= front);
        assert(digit_value(text.last()) == value % 10);
        assert(text[0] == front[0]);
        assert forall|i: int| 0 <= i < text.len() implies is_digit(#[trigger] text[i]) by {
            if i < front.len() {
                assert(text[i] == front[i]);
            }
        }
    }
}

/// Writing a number and reading it back gives the number.
pub proof fn lemma_base_ten_round_trip(value: u64)
    ensures
        value_of(base_ten(value as nat)) == Some(value),
{
    lemma_base_ten(value as nat);
}

fn digit_text(d: u64) -> (text: &'static str)
    requires
        d < 10,
    ensures
        text@ == seq![digit_of(d as nat)],
{
    proof {
        reveal_strlit("0");
        reveal_strlit("1");
        reveal_strlit("2");
        reveal_strlit("3");
        reveal_strlit("4");
        reveal_strlit("5");
        reveal_strlit("6");
        reveal_strlit("7");
        reveal_strlit("8");
        reveal_strlit("9");
    }
    let text = if d == 0 {
        "0"
    } else if d == 1 {
        "1"
    } else if d == 2 {
        "2"
    } else if d == 3 {
        "3"
    } else if d == 4 {
        "4"
    } else if d == 5 {
        "5"
    } else if d == 6 {
        "6"
    } else if d == 7 {
        "7"
    } else if d == 8 {
        "8"
    } else {
        "9"
    };
    assert(text@ =~= seq![digit_of(d as nat)]);
    text
}

/// Writes a number in base ten.
pub fn numeral_text(value: u64) -> (text: String)
    ensures
        text@ == base_ten(value as nat),
    decreases value,
{
    if value < 10 {
        digit_text(value).to_owned()
    } else {
        let mut text = numeral_text(value / 10);
        text.append(digit_text(value % 10));
        assert(text@ =~= base_ten(value as nat));
        text
    }
}

/// Whether two texts hold the same characters.
pub(crate) fn same_text(a: &str, b: &str) -> (same: bool)
    ensures
        same == (a@ == b@),
{
    let x = a.as_bytes();
    let y = b.as_bytes();
    if x.len() != y.len() {
        return false;
    }
    let mut i: usize = 0;
    while i < x.len()
        invariant
            i <= x@.len(),
            x@.len() == y@.len(),
            x@ == a.spec_bytes(),
            y@ == b.spec_bytes(),
            forall|j: int| 0 <= j < i ==> x@[j] == y@[j],
        decreases x@.len() - i,
    {
        if x[i] != y[i] {
            return false;
        }
        i = i + 1;
    }
    proof {
        assert(x@ =~= y@);
        encode_utf8_decode_utf8(a@);
        encode_utf8_decode_utf8(b@);
    }
    true
}

} // verus!

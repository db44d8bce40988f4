//! Text that the connector renders: decimal numbers, JSON strings and UUIDs.

use vstd::prelude::*;

verus! {

// ---------------------------------------------------------------------------
// Decimal numbers
// ---------------------------------------------------------------------------

/// The character of one decimal digit.
pub open spec fn digit(value: int) -> char {
    if value == 0 {
        '0'
    } else if value == 1 {
        '1'
    } else if value == 2 {
        '2'
    } else if value == 3 {
        '3'
    } else if value == 4 {
        '4'
    } else if value == 5 {
        '5'
    } else if value == 6 {
        '6'
    } else if value == 7 {
        '7'
    } else if value == 8 {
        '8'
    } else {
        '9'
    }
}

/// A natural number in decimal, without leading zeros.
pub open spec fn natural_text(value: nat) -> Seq<char>
    decreases value,
{
    if value < 10 {
        seq![digit(value as int)]
    } else {
        natural_text(value / 10).push(digit((value % 10) as int))
    }
}

/// An integer in decimal, with a minus sign where it is negative.
pub open spec fn integer_text(value: int) -> Seq<char> {
    if value < 0 {
        seq!['-'] + natural_text((-value) as nat)
    } else {
        natural_text(value as nat)
    }
}

fn digit_text(value: u64) -> (text: &'static str)
    requires
        value < 10,
    ensures
        text@ == seq![digit(value as int)],
{
    proof {
        reveal_strlit("0");
        reveal_strlit("1");
        reveal_strlit("2");
        reveal_strlit("3");
        reveal_strlit("4");
        reveal_strlit("5");
        reveal_strlit("6");
        reveal_strlit("7");
        reveal_strlit("8");
        reveal_strlit("9");
    }
    let text = match value {
        0 => "0",
        1 => "1",
        2 => "2",
        3 => "3",
        4 => "4",
        5 => "5",
        6 => "6",
        7 => "7",
        8 => "8",
        _ => "9",
    };
    assert(text@ =~= seq![digit(value as int)]);
    text
}

/// Append a natural number in decimal.
pub fn append_natural(out: &mut String, value: u64)
    ensures
        final(out)@ == old(out)@ + natural_text(value as nat),
    decreases value,
{
    if value >= 10 {
        append_natural(out, value / 10);
    }
    let ghost before = out@;
    out.append(digit_text(value % 10));
    assert(out@ =~= old(out)@ + natural_text(value as nat));
}

/// Append an integer in decimal.
pub fn append_integer(out: &mut String, value: i64)
    ensures
        final(out)@ == old(out)@ + integer_text(value as int),
{
    if value < 0 {
        proof {
            reveal_strlit("-");
        }
        out.append("-");
        let magnitude: u64 = if value == i64::MIN {
            9223372036854775808
        } else {
            (-value) as u64
        };
        append_natural(out, magnitude);
        assert(out@ =~= old(out)@ + integer_text(value as int));
    } else {
        append_natural(out, value as u64);
    }
}

/// An integer in decimal.
pub fn integer_to_string(value: i64) -> (text: String)
    ensures
        text@ == integer_text(value as int),
{
    let mut text = String::new();
    append_integer(&mut text, value);
    assert(text@ =~= integer_text(value as int));
    text
}

proof fn lemma_natural_text_injective(left: nat, right: nat)
    requires
        natural_text(left) == natural_text(right),
    ensures
        left == right,
    decreases left,
{
    let a = natural_text(left);
    let b = natural_text(right);
    if left < 10 && right < 10 {
        assert(a[0] == digit(left as int));
        assert(b[0] == digit(right as int));
    } else if left >= 10 && right >= 10 {
        assert(a.drop_last() =~= natural_text(left / 10));
        assert(b.drop_last() =~= natural_text(right / 10));
        assert(a.last() == digit((left % 10) as int));
        assert(b.last() == digit((right % 10) as int));
        lemma_natural_text_injective(left / 10, right / 10);
        assert(left == left / 10 * 10 + left % 10);
        assert(right == right / 10 * 10 + right % 10);
    } else if left >= 10 {
        lemma_natural_text_length(left);
        assert(b.len() == 1);
    } else {
        lemma_natural_text_length(right);
        assert(a.len() == 1);
    }
}

proof fn lemma_natural_text_length(value: nat)
    ensures
        natural_text(value).len() >= 1,
        value >= 10 ==> natural_text(value).len() >= 2,
        forall|i: int| 0 <= i < natural_text(value).len() ==> natural_text(value)[i] != '-',
    decreases value,
{
    if value >= 10 {
        lemma_natural_text_length(value / 10);
    }
}

/// Different integers have different decimal texts.
pub proof fn law_integer_text_is_injective(left: int, right: int)
    requires
        integer_text(left) == integer_text(right),
    ensures
        left == right,
{
    let a = integer_text(left);
    let b = integer_text(right);
    if left < 0 && right < 0 {
        assert(a.skip(1) =~= natural_text((-left) as nat));
        assert(b.skip(1) =~= natural_text((-right) as nat));
        lemma_natural_text_injective((-left) as nat, (-right) as nat);
    } else if left >= 0 && right >= 0 {
        lemma_natural_text_injective(left as nat, right as nat);
    } else if left < 0 {
        lemma_natural_text_length(right as nat);
        assert(a[0] == '-');
        assert(b[0] != '-');
    } else {
        lemma_natural_text_length(left as nat);
        assert(b[0] == '-');
        assert(a[0] != '-');
    }
}

// ---------------------------------------------------------------------------
// Parsing decimal numbers
// ---------------------------------------------------------------------------

/// The value of a decimal digit.
pub open spec fn digit_value(c: char) -> Option<int> {
    if '0' <= c <= '9' {
        Some(c as int - '0' as int)
    } else {
        None
    }
}

/// The value of a text of decimal digits; a text without a digit has none.
pub open spec fn natural_value(text: Seq<char>) -> Option<nat>
    decreases text.len(),
{
    if text.len() == 0 {
        None
    } else {
        match digit_value(text.last()) {
            None => None,
            Some(low) => if text.len() == 1 {
                Some(low as nat)
            } else {
                match natural_value(text.drop_last()) {
                    None => None,
                    Some(high) => Some((high * 10 + low) as nat),
                }
            },
        }
    }
}

/// The value of a decimal text with an optional plus sign, or none where it is no such text or
/// leaves the range of `u64`.
pub open spec fn parsed_u64(text: Seq<char>) -> Option<u64> {
    let digits = if text.len() > 0 && text[0] == '+' {
        text.skip(1)
    } else {
        text
    };
    match natural_value(digits) {
        Some(value) => if value <= u64::MAX {
            Some(value as u64)
        } else {
            None
        },
        None => None,
    }
}

/// The value of a decimal text with an optional sign, or none where it is no such text or leaves
/// the range of `i32`.
pub open spec fn parsed_i32(text: Seq<char>) -> Option<i32> {
    let negative = text.len() > 0 && text[0] == '-';
    let digits = if text.len() > 0 && (text[0] == '+' || text[0] == '-') {
        text.skip(1)
    } else {
        text
    };
    match natural_value(digits) {
        Some(value) => if negative && value <= 0x8000_0000 {
            Some((-value) as i32)
        } else if !negative && value <= i32::MAX {
            Some(value as i32)
        } else {
            None
        },
        None => None,
    }
}

proof fn lemma_natural_value_prefix(text: Seq<char>, n: int)
    requires
        1 <= n <= text.len(),
        natural_value(text) is Some,
    ensures
        natural_value(text.take(n)) is Some,
        natural_value(text.take(n))->0 <= natural_value(text)->0,
    decreases text.len() - n,
{
    if n == text.len() {
        assert(text.take(n) =~= text);
    } else {
        lemma_natural_value_prefix(text, n + 1);
        assert(text.take(n + 1).drop_last() =~= text.take(n));
    }
}

fn parse_digits(text: &str, from: usize) -> (value: Option<u64>)
    requires
        from <= text@.len(),
    ensures
        value == match natural_value(text@.skip(from as int)) {
            Some(value) => if value <= u64::MAX {
                Some(value as u64)
            } else {
                None
            },
            None => None,
        },
{
    let length: usize = text.unicode_len();
    let ghost digits = text@.skip(from as int);
    if from == length {
        return None;
    }
    let mut value: u64 = 0;
    let mut i: usize = from;
    while i < length
        invariant
            from <= i <= length,
            from < length,
            length == text@.len(),
            digits == text@.skip(from as int),
            i > from ==> natural_value(digits.take(i - from)) == Some(value as nat),
            i == from ==> value == 0,
        decreases length - i,
    {
        let c: char = text.get_char(i);
        proof {
            assert(digits[i - from] == c);
            assert(digits.take(i - from + 1).last() == c);
            assert(digits.take(i - from + 1).drop_last() =~= digits.take(i - from));
        }
        if c < '0' || c > '9' {
            proof {
                if natural_value(digits) is Some {
                    lemma_natural_value_prefix(digits, i - from + 1);
                }
            }
            return None;
        }
        let low: u64 = (c as u32 - '0' as u32) as u64;
        if value > 1844674407370955161 || (value == 1844674407370955161 && low > 5) {
            proof {
                assert(i > from);
                if natural_value(digits) is Some {
                    lemma_natural_value_prefix(digits, i - from + 1);
                }
            }
            return None;
        }
        value = value * 10 + low;
        i += 1;
    }
    assert(digits.take(i - from) =~= digits);
    Some(value)
}

/// Parse a byte count or another number without a minus sign.
pub fn parse_u64(text: &str) -> (value: Option<u64>)
    ensures
        value == parsed_u64(text@),
{
    let length: usize = text.unicode_len();
    assert(text@.skip(0) =~= text@);
    if length > 0 && text.get_char(0) == '+' {
        return parse_digits(text, 1);
    }
    parse_digits(text, 0)
}

/// Parse a field id.
pub fn parse_i32(text: &str) -> (value: Option<i32>)
    ensures
        value == parsed_i32(text@),
{
    let length: usize = text.unicode_len();
    assert(text@.skip(0) =~= text@);
    let mut negative = false;
    let mut from: usize = 0;
    if length > 0 {
        let c: char = text.get_char(0);
        if c == '-' {
            negative = true;
            from = 1;
        } else if c == '+' {
            from = 1;
        }
    }
    match parse_digits(text, from) {
        None => None,
        Some(value) => {
            if negative {
                if value <= 2147483648 {
                    Some((-(value as i64)) as i32)
                } else {
                    None
                }
            } else if value <= 2147483647 {
                Some(value as i32)
            } else {
                None
            }
        },
    }
}

pub proof fn lemma_natural_value_of_text(value: nat)
    ensures
        natural_value(natural_text(value)) == Some(value),
        natural_text(value).len() >= 1,
        natural_text(value)[0] != '+',
        natural_text(value)[0] != '-',
    decreases value,
{
    if value >= 10 {
        lemma_natural_value_of_text(value / 10);
        assert(natural_text(value).drop_last() =~= natural_text(value / 10));
        assert(natural_text(value)[0] == natural_text(value / 10)[0]);
        assert(value == value / 10 * 10 + value % 10);
    }
}

/// Parsing what was rendered gives the number back.
pub proof fn law_parsing_inverts_rendering(value: i32)
    ensures
        parsed_i32(integer_text(value as int)) == Some(value),
{
    if value < 0 {
        lemma_natural_value_of_text((-value) as nat);
        assert(integer_text(value as int).skip(1) =~= natural_text((-value) as nat));
    } else {
        lemma_natural_value_of_text(value as nat);
    }
}

// ---------------------------------------------------------------------------
// Comparison without regard to ASCII case
// ---------------------------------------------------------------------------

/// Whether two characters are the same but for the case of an ASCII letter.
pub open spec fn same_letter(left: char, right: char) -> bool {
    ||| left == right
    ||| 'A' <= left <= 'Z' && right as int == left as int + 32
    ||| 'A' <= right <= 'Z' && left as int == right as int + 32
}

/// Whether two texts are the same but for the case of ASCII letters.
pub open spec fn same_ignoring_case(left: Seq<char>, right: Seq<char>) -> bool {
    &&& left.len() == right.len()
    &&& forall|i: int| 0 <= i < left.len() ==> same_letter(#[trigger] left[i], right[i])
}

fn same_letter_of(left: char, right: char) -> (same: bool)
    ensures
        same == same_letter(left, right),
{
    left == right || ('A' <= left && left <= 'Z' && right as u32 == left as u32 + 32) || ('A'
        <= right && right <= 'Z' && left as u32 == right as u32 + 32)
}

/// Compare two texts without regard to the case of ASCII letters.
pub fn equal_ignoring_case(left: &str, right: &str) -> (same: bool)
    ensures
        same == same_ignoring_case(left@, right@),
{
    let length: usize = left.unicode_len();
    if length != right.unicode_len() {
        return false;
    }
    let mut i: usize = 0;
    while i < length
        invariant
            i <= length,
            length == left@.len(),
            length == right@.len(),
            forall|k: int| 0 <= k < i ==> same_letter(#[trigger] left@[k], right@[k]),
        decreases length - i,
    {
        if !same_letter_of(left.get_char(i), right.get_char(i)) {
            return false;
        }
        i += 1;
    }
    true
}

/// Comparison without regard to case is symmetric.
pub proof fn law_same_ignoring_case_is_symmetric(left: Seq<char>, right: Seq<char>)
    ensures
        same_ignoring_case(left, right) == same_ignoring_case(right, left),
{
    if same_ignoring_case(left, right) {
        assert forall|i: int| 0 <= i < right.len() implies same_letter(#[trigger] right[i], left[i]) by {
            assert(same_letter(left[i], right[i]));
        }
    }
    if same_ignoring_case(right, left) {
        assert forall|i: int| 0 <= i < left.len() implies same_letter(#[trigger] left[i], right[i]) by {
            assert(same_letter(right[i], left[i]));
        }
    }
}

// ---------------------------------------------------------------------------
// JSON strings
// ---------------------------------------------------------------------------

/// The JSON string literal of a text, quotes and escapes included, as `serde_json` writes it.
pub uninterp spec fn json_quoted(text: Seq<char>) -> Seq<char>;

/// An error of `serde_json`.
#[verifier::external_type_specification]
#[verifier::external_body]
pub struct ExJsonError(serde_json::Error);

/// `serde_json::to_string` on a text. A text is written into memory and has no part that could
/// fail to serialise, so the call succeeds; the literal depends on the text alone.
#[verifier::external_body]
pub(crate) fn json_string(text: &str) -> (rendered: Result<String, serde_json::Error>)
    ensures
        rendered is Ok,
        rendered->Ok_0@ == json_quoted(text@),
{
    serde_json::to_string(text)
}

/// Whether a text is a JSON document, as `serde_json` reads one.
pub uninterp spec fn is_json(text: Seq<char>) -> bool;

/// `serde_json::from_str` into a `serde_json::Value`: whether it succeeds. That depends on the text
/// alone.
#[verifier::external_body]
pub(crate) fn parses_as_json(text: &str) -> (parses: bool)
    ensures
        parses == is_json(text@),
{
    serde_json::from_str::<serde_json::Value>(text).is_ok()
}

// ---------------------------------------------------------------------------
// UUIDs
// ---------------------------------------------------------------------------

/// The lower-case character of one hexadecimal digit.
pub open spec fn hex_digit(value: int) -> char {
    if value < 10 {
        digit(value)
    } else if value == 10 {
        'a'
    } else if value == 11 {
        'b'
    } else if value == 12 {
        'c'
    } else if value == 13 {
        'd'
    } else if value == 14 {
        'e'
    } else {
        'f'
    }
}

/// The hexadecimal digit of `value` that `places` lower ones follow.
pub open spec fn hex_place(value: int, places: nat) -> int
    decreases places,
{
    if places == 0 {
        value % 16
    } else {
        hex_place(value / 16, (places - 1) as nat)
    }
}

/// The canonical text of a UUID: thirty-two hexadecimal digits, the highest first, in groups of
/// eight, four, four, four and twelve with hyphens between.
pub open spec fn uuid_text(value: u128) -> Seq<char> {
    Seq::new(
        36,
        |i: int|
            if i == 8 || i == 13 || i == 18 || i == 23 {
                '-'
            } else {
                let digits_before = i - (if i > 8 {
                    1int
                } else {
                    0
                }) - (if i > 13 {
                    1int
                } else {
                    0
                }) - (if i > 18 {
                    1int
                } else {
                    0
                }) - (if i > 23 {
                    1int
                } else {
                    0
                });
                hex_digit(hex_place(value as int, (31 - digits_before) as nat))
            },
    )
}

/// `uuid::Uuid::from_u128` followed by `hyphenated` and its `Display`: the value is taken as
/// sixteen big-endian bytes and written in lower case, two digits a byte, with the four hyphens.
#[verifier::external_body]
pub(crate) fn uuid_to_string(value: u128) -> (text: String)
    ensures
        text@ == uuid_text(value),
{
    uuid::Uuid::from_u128(value).hyphenated().to_string()
}

} // verus!

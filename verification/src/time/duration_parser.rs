use vstd::prelude::*;
use vstd::string::StringExecFns;

verus! {

/// The character of a decimal digit.
pub open spec fn digit_char(digit: nat) -> char {
    if digit == 0 {
        '0'
    } else if digit == 1 {
        '1'
    } else if digit == 2 {
        '2'
    } else if digit == 3 {
        '3'
    } else if digit == 4 {
        '4'
    } else if digit == 5 {
        '5'
    } else if digit == 6 {
        '6'
    } else if digit == 7 {
        '7'
    } else if digit == 8 {
        '8'
    } else {
        '9'
    }
}

/// The decimal digits of a number, without leading zeros; zero is `0`.
pub open spec fn decimal(n: nat) -> Seq<char>
    decreases n,
{
    if n < 10 {
        seq![digit_char(n)]
    } else {
        decimal(n / 10).push(digit_char(n % 10))
    }
}

/// A number with its unit behind it, as in `12m`; nothing for zero.
pub open spec fn duration_part(n: nat, unit: char) -> Seq<char> {
    if n == 0 {
        Seq::empty()
    } else {
        decimal(n).push(unit)
    }
}

/// Two texts with a blank between them, where neither is empty.
pub open spec fn joined(left: Seq<char>, right: Seq<char>) -> Seq<char> {
    if left.len() == 0 {
        right
    } else if right.len() == 0 {
        left
    } else {
        left + seq![' '] + right
    }
}

/// A duration of so many seconds in the form `Xh Xm Xs`, where a part that is
/// zero is left out.
pub open spec fn formatted_duration(seconds: nat) -> Seq<char> {
    joined(
        joined(duration_part(seconds / 3600, 'h'), duration_part(seconds % 3600 / 60, 'm')),
        duration_part(seconds % 60, 's'),
    )
}

/// The text of one decimal digit.
fn digit_str(digit: u32) -> (text: &'static str)
    requires
        digit < 10,
    ensures
        text@ == seq![digit_char(digit as nat)],
{
    proof {
        reveal_strlit("0");
        reveal_strlit("1");
        reveal_strlit("2");
        reveal_strlit("3");
        reveal_strlit("4");
        reveal_strlit("5");
        reveal_strlit("6");
        reveal_strlit("7");
        reveal_strlit("8");
        reveal_strlit("9");
    }
    let text: &'static str = if digit == 0 {
        "0"
    } else if digit == 1 {
        "1"
    } else if digit == 2 {
        "2"
    } else if digit == 3 {
        "3"
    } else if digit == 4 {
        "4"
    } else if digit == 5 {
        "5"
    } else if digit == 6 {
        "6"
    } else if digit == 7 {
        "7"
    } else if digit == 8 {
        "8"
    } else {
        "9"
    };
    proof {
        assert(text@ =~= seq![digit_char(digit as nat)]);
    }
    text
}

/// Appends the decimal digits of a number to a text.
fn push_decimal(text: &mut String, n: u32)
    ensures
        final(text)@ == old(text)@ + decimal(n as nat),
    decreases n,
{
    if n >= 10 {
        push_decimal(text, n / 10);
    }
    let ghost before = text@;
    text.append(digit_str(n % 10));
    proof {
        if n >= 10 {
            assert(text@ =~= old(text)@ + decimal(n as nat));
        }
    }
}

/// Appends a part of a duration to a text, behind a blank where the text holds
/// a part already; a part that is zero is left out.
fn push_part(text: &mut String, n: u32, unit: &str)
    requires
        unit@.len() == 1,
    ensures
        final(text)@ == joined(old(text)@, duration_part(n as nat, unit@[0])),
{
    if n > 0 {
        if !text.as_str().is_empty() {
            text.append(" ");
        }
        push_decimal(text, n);
        text.append(unit);
        proof {
            reveal_strlit(" ");
            assert(" "@ =~= seq![' ']);
            assert(unit@ =~= seq![unit@[0]]);
            assert(text@ =~= joined(old(text)@, duration_part(n as nat, unit@[0])));
        }
    }
}

/// The unit behind the hours.
fn unit_hours() -> (unit: &'static str)
    ensures
        unit@ == seq!['h'],
{
    proof {
        reveal_strlit("h");
        assert("h"@ =~= seq!['h']);
    }
    "h"
}

/// The unit behind the minutes.
fn unit_minutes() -> (unit: &'static str)
    ensures
        unit@ == seq!['m'],
{
    proof {
        reveal_strlit("m");
        assert("m"@ =~= seq!['m']);
    }
    "m"
}

/// The unit behind the seconds.
fn unit_seconds() -> (unit: &'static str)
    ensures
        unit@ == seq!['s'],
{
    proof {
        reveal_strlit("s");
        assert("s"@ =~= seq!['s']);
    }
    "s"
}

/// Format a duration given in seconds in the form "Xh Xm Xs".
pub fn format_duration(seconds: u32) -> (text: String)
    ensures
        text@ == formatted_duration(seconds as nat),
{
    let hours: u32 = seconds / 3600;
    let minutes: u32 = seconds % 3600 / 60;
    let rest: u32 = seconds % 60;

    let mut result: String = String::new();
    push_part(&mut result, hours, unit_hours());
    push_part(&mut result, minutes, unit_minutes());
    push_part(&mut result, rest, unit_seconds());
    result
}

/// Whether the character is one of the units `h`, `m`, `s`.
pub open spec fn is_unit(c: char) -> bool {
    c == 'h' || c == 'm' || c == 's'
}

/// Whether the character is white space: a character with the Unicode
/// property `White_Space`.
pub open spec fn is_whitespace(c: char) -> bool {
    let code = c as u32;
    ||| 0x09 <= code <= 0x0D
    ||| code == 0x20
    ||| code == 0x85
    ||| code == 0xA0
    ||| code == 0x1680
    ||| 0x2000 <= code <= 0x200A
    ||| code == 0x2028
    ||| code == 0x2029
    ||| code == 0x202F
    ||| code == 0x205F
    ||| code == 0x3000
}

/// Whether the character is a decimal digit.
pub open spec fn is_digit(c: char) -> bool {
    '0' <= c && c <= '9'
}

/// The first position from `i` on that holds no white space, or the length
/// of the text.
pub open spec fn skip_whitespace(text: Seq<char>, i: int) -> int
    decreases text.len() - i,
{
    if 0 <= i < text.len() && is_whitespace(text[i]) {
        skip_whitespace(text, i + 1)
    } else {
        i
    }
}

/// The position behind the last character before `j` that is no white space,
/// or 0.
pub open spec fn drop_whitespace(text: Seq<char>, j: int) -> int
    decreases j,
{
    if 0 < j <= text.len() && is_whitespace(text[j - 1]) {
        drop_whitespace(text, j - 1)
    } else {
        j
    }
}

/// The text without the white space at its start and at its end.
pub open spec fn trimmed(text: Seq<char>) -> Seq<char> {
    let start = skip_whitespace(text, 0);
    let end = drop_whitespace(text, text.len() as int);
    if start < end {
        text.subrange(start, end)
    } else {
        Seq::empty()
    }
}

/// The number that decimal digits stand for.
pub open spec fn digits_value(digits: Seq<char>) -> int
    decreases digits.len(),
{
    if digits.len() == 0 {
        0
    } else {
        digits_value(digits.drop_last()) * 10 + (digits.last() as u32 - '0' as u32)
    }
}

/// Every character is a decimal digit.
pub open spec fn all_digits(digits: Seq<char>) -> bool {
    forall|i: int| 0 <= i < digits.len() ==> is_digit(#[trigger] digits[i])
}

/// The 32-bit number that digits behind a sign stand for; `None` where
/// there is no digit, where another character stands among them, or where
/// the number is out of range.
pub open spec fn signed_number(negative: bool, digits: Seq<char>) -> Option<int> {
    let value = if negative {
        -digits_value(digits)
    } else {
        digits_value(digits)
    };
    if digits.len() > 0 && all_digits(digits) && i32::MIN <= value <= i32::MAX {
        Some(value)
    } else {
        None
    }
}

/// The 32-bit number that a text stands for: decimal digits, at least one,
/// behind at most one sign; `None` where the text is of another form or
/// the number is out of range.
pub open spec fn parsed_number(text: Seq<char>) -> Option<int> {
    if text.len() > 0 && (text[0] == '+' || text[0] == '-') {
        signed_number(text[0] == '-', text.drop_first())
    } else {
        signed_number(false, text)
    }
}

/// The hours, minutes and seconds that were read so far.
pub struct Tally {
    pub hours: int,
    pub minutes: int,
    pub seconds: int,
}

impl Tally {
    /// The tally with a number more under the given unit.
    pub open spec fn plus(self, unit: char, number: int) -> Tally {
        if unit == 'h' {
            Tally { hours: self.hours + number, ..self }
        } else if unit == 'm' {
            Tally { minutes: self.minutes + number, ..self }
        } else {
            Tally { seconds: self.seconds + number, ..self }
        }
    }

    /// The tally in seconds.
    pub open spec fn total(self) -> int {
        self.hours * 3600 + self.minutes * 60 + self.seconds
    }
}

/// The characters behind the last unit of the text: what waits to be read as
/// the number of the next unit.
pub open spec fn pending(text: Seq<char>) -> Seq<char>
    decreases text.len(),
{
    if text.len() == 0 || is_unit(text.last()) {
        Seq::empty()
    } else {
        pending(text.drop_last()).push(text.last())
    }
}

/// The numbers of the text, summed up by their units: before each unit
/// stands its number, which may have white space around it. `None` where
/// what stands before a unit is no number. What follows the last unit counts
/// nothing.
pub open spec fn tally(text: Seq<char>) -> Option<Tally>
    decreases text.len(),
{
    if text.len() == 0 {
        Some(Tally { hours: 0, minutes: 0, seconds: 0 })
    } else if !is_unit(text.last()) {
        tally(text.drop_last())
    } else {
        match (tally(text.drop_last()), parsed_number(trimmed(pending(text.drop_last())))) {
            (Some(sums), Some(number)) => Some(sums.plus(text.last(), number)),
            _ => None,
        }
    }
}

/// The seconds that a text in the form "Xh Xm Xs" stands for; `None` where
/// the text is not of that form or the seconds are out of the range of 32 bits.
pub open spec fn parsed_duration(text: Seq<char>) -> Option<int> {
    match tally(text) {
        Some(sums) => if i32::MIN <= sums.total() <= i32::MAX {
            Some(sums.total())
        } else {
            None
        },
        None => None,
    }
}

/// What is said of a text that is no duration.
pub open spec fn parse_error_message(text: Seq<char>) -> Seq<char> {
    "Could not parse time taken from given string '"@ + text + "'"@
}

/// Tells whether the character is white space.
fn char_is_whitespace(c: char) -> (whitespace: bool)
    ensures
        whitespace == is_whitespace(c),
{
    let code: u32 = c as u32;
    (0x09 <= code && code <= 0x0D) || code == 0x20 || code == 0x85 || code == 0xA0 || code
        == 0x1680 || (0x2000 <= code && code <= 0x200A) || code == 0x2028 || code == 0x2029 || code
        == 0x202F || code == 0x205F || code == 0x3000
}

/// The value of digits grows with each digit more.
proof fn lemma_digits_value_grows(digits: Seq<char>, n: int)
    requires
        0 <= n <= digits.len(),
        all_digits(digits),
    ensures
        0 <= digits_value(digits.take(n)) <= digits_value(digits),
    decreases digits.len() - n,
{
    if n == digits.len() {
        assert(digits.take(n) =~= digits);
        lemma_digits_value_non_negative(digits);
    } else {
        lemma_digits_value_grows(digits, n + 1);
        assert(digits.take(n + 1).drop_last() =~= digits.take(n));
        assert(is_digit(digits[n]));
        lemma_digits_value_non_negative(digits.take(n));
    }
}

proof fn lemma_digits_value_non_negative(digits: Seq<char>)
    requires
        all_digits(digits),
    ensures
        0 <= digits_value(digits),
    decreases digits.len(),
{
    if digits.len() > 0 {
        assert(is_digit(digits[digits.len() - 1]));
        lemma_digits_value_non_negative(digits.drop_last());
    }
}

/// Reads the number that the characters hold between white space.
fn read_number(buffer: &Vec<char>) -> (number: Option<i32>)
    ensures
        match number {
            Some(number) => parsed_number(trimmed(buffer@)) == Some(number as int),
            None => parsed_number(trimmed(buffer@)) is None,
        },
{
    let mut start: usize = 0;
    while start < buffer.len() && char_is_whitespace(buffer[start])
        invariant
            start <= buffer@.len(),
            skip_whitespace(buffer@, start as int) == skip_whitespace(buffer@, 0),
        decreases buffer@.len() - start,
    {
        start = start + 1;
    }
    let mut end: usize = buffer.len();
    while end > 0 && char_is_whitespace(buffer[end - 1])
        invariant
            end <= buffer@.len(),
            drop_whitespace(buffer@, end as int) == drop_whitespace(buffer@, buffer@.len() as int),
        decreases end,
    {
        end = end - 1;
    }
    if start >= end {
        return None;
    }
    let ghost text = trimmed(buffer@);
    assert(text == buffer@.subrange(start as int, end as int));
    let signed: bool = buffer[start] == '+' || buffer[start] == '-';
    let negative: bool = buffer[start] == '-';
    let first: usize = if signed {
        start + 1
    } else {
        start
    };
    let ghost digits = buffer@.subrange(first as int, end as int);
    proof {
        assert(text[0] == buffer@[start as int]);
        if signed {
            assert(text.drop_first() =~= digits);
        } else {
            assert(text =~= digits);
        }
        assert(parsed_number(text) == signed_number(negative, digits));
    }
    if first >= end {
        return None;
    }
    let mut value: i64 = 0;
    let mut i: usize = first;
    proof {
        assert(digits.take(0) =~= Seq::<char>::empty());
    }
    while i < end
        invariant
            first <= i <= end <= buffer@.len(),
            digits == buffer@.subrange(first as int, end as int),
            parsed_number(trimmed(buffer@)) == signed_number(negative, digits),
            forall|k: int| 0 <= k < i - first ==> is_digit(#[trigger] digits[k]),
            value == digits_value(digits.take(i - first)),
            0 <= value <= 0x8000_0000,
        decreases end - i,
    {
        let c: char = buffer[i];
        proof {
            assert(digits[i - first] == c);
            assert(digits.take(i - first + 1).drop_last() =~= digits.take(i - first));
        }
        if !('0' <= c && c <= '9') {
            proof {
                assert(!is_digit(digits[i - first]));
            }
            return None;
        }
        value = value * 10 + (c as u32 - '0' as u32) as i64;
        if value > 0x8000_0000 {
            proof {
                if all_digits(digits) {
                    lemma_digits_value_grows(digits, i - first + 1);
                }
            }
            return None;
        }
        i = i + 1;
    }
    proof {
        assert(digits.take(end - first) =~= digits);
    }
    if negative {
        Some((-value) as i32)
    } else if value > 0x7FFF_FFFF {
        None
    } else {
        Some(value as i32)
    }
}

/// The text that tells that the given text is no duration.
fn parse_error(src: &str) -> (message: String)
    ensures
        message@ == parse_error_message(src@),
{
    let mut message: String = String::from_str("Could not parse time taken from given string '");
    message.append(src);
    message.append("'");
    message
}

/// Parse the time taken in seconds from the given string in the format
/// "Xh Xm Xs" where X must be a number and h, m or s are optional.
pub fn parse_duration(src: &str) -> (result: Result<i32, String>)
    ensures
        match result {
            Ok(seconds) => parsed_duration(src@) == Some(seconds as int),
            Err(message) => parsed_duration(src@) is None && message@ == parse_error_message(src@),
        },
{
    let length: usize = src.unicode_len();
    let mut hours: i128 = 0;
    let mut minutes: i128 = 0;
    let mut seconds: i128 = 0;

    let mut number_buffer: Vec<char> = Vec::new();
    proof {
        assert(src@.take(0) =~= Seq::<char>::empty());
    }
    for c in it: src.chars()
        invariant
            it.seq() == src@,
            length == src@.len(),
            number_buffer@ == pending(src@.take(it.index() as int)),
            tally(src@.take(it.index() as int)) == Some(
                Tally { hours: hours as int, minutes: minutes as int, seconds: seconds as int },
            ),
            -(it.index() * 0x8000_0000) <= hours <= it.index() * 0x8000_0000,
            -(it.index() * 0x8000_0000) <= minutes <= it.index() * 0x8000_0000,
            -(it.index() * 0x8000_0000) <= seconds <= it.index() * 0x8000_0000,
    {
        let ghost before = src@.take(it.index() as int);
        let ghost after = src@.take(it.index() + 1);
        proof {
            assert(after.drop_last() =~= before);
            assert(after.last() == c);
            assert(it.index() < length);
        }
        let is_hours: bool = c == 'h';
        let is_minutes: bool = c == 'm';
        let is_seconds: bool = c == 's';

        let consume_buffer: bool = is_hours || is_minutes || is_seconds;
        if consume_buffer {
            // Parse number from buffer and clear it
            let num: i32 = match read_number(&number_buffer) {
                Some(res) => res,
                None => {
                    proof {
                        lemma_tally_stays_none(src@, it.index() + 1);
                    }
                    return Err(parse_error(src));
                },
            };

            if is_hours {
                hours = hours + num as i128;
            } else if is_minutes {
                minutes = minutes + num as i128;
            } else if is_seconds {
                seconds = seconds + num as i128;
            }

            number_buffer.clear();
        } else {
            // Add to buffer
            number_buffer.push(c);
        }
    }
    proof {
        assert(src@.take(src@.len() as int) =~= src@);
    }

    let total: i128 = hours * 60 * 60 + minutes * 60 + seconds;
    if total < i32::MIN as i128 || total > i32::MAX as i128 {
        return Err(parse_error(src));
    }
    Ok(total as i32)
}

/// Once a number could not be read, no later character mends it.
proof fn lemma_tally_stays_none(text: Seq<char>, n: int)
    requires
        0 <= n <= text.len(),
        tally(text.take(n)) is None,
    ensures
        tally(text) is None,
    decreases text.len() - n,
{
    if n == text.len() {
        assert(text.take(n) =~= text);
    } else {
        assert(text.take(n + 1).drop_last() =~= text.take(n));
        lemma_tally_stays_none(text, n + 1);
    }
}

} // verus!

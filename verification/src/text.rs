use vstd::prelude::*;
use vstd::string::*;

verus! {

/// The character for a digit.
pub open spec fn digit_char(digit: nat) -> char {
    if digit == 0 {
        '0'
    } else if digit == 1 {
        '1'
    } else if digit == 2 {
        '2'
    } else if digit == 3 {
        '3'
    } else if digit == 4 {
        '4'
    } else if digit == 5 {
        '5'
    } else if digit == 6 {
        '6'
    } else if digit == 7 {
        '7'
    } else if digit == 8 {
        '8'
    } else {
        '9'
    }
}

/// A number written in decimal, without leading zeros.
pub open spec fn decimal(number: nat) -> Seq<char>
    decreases number,
{
    if number < 10 {
        seq![digit_char(number)]
    } else {
        decimal(number / 10).push(digit_char(number % 10))
    }
}

/// A number written in decimal, with a sign in front if it is negative.
pub open spec fn signed_decimal(number: int) -> Seq<char> {
    if number < 0 {
        seq!['-'] + decimal((-number) as nat)
    } else {
        decimal(number as nat)
    }
}

pub open spec fn is_digit(c: char) -> bool {
    '0' <= c && c <= '9'
}

/// What a string of digits stands for.
pub open spec fn digits_value(digits: Seq<char>) -> nat
    decreases digits.len(),
{
    if digits.len() == 0 {
        0
    } else {
        digits_value(digits.drop_last()) * 10 + (digits.last() as nat - '0' as nat) as nat
    }
}

/// A text without the plus sign in front, if there is one.
pub open spec fn unsigned_part(text: Seq<char>) -> Seq<char> {
    if text.len() > 0 && text[0] == '+' {
        text.drop_first()
    } else {
        text
    }
}

pub open spec fn all_digits(text: Seq<char>) -> bool {
    forall|i: int| 0 <= i < text.len() ==> is_digit(#[trigger] text[i])
}

/// The number that a text stands for: digits, with an optional plus sign in front,
/// whose value is at most `max`.
pub open spec fn parsed(text: Seq<char>, max: nat) -> Option<nat> {
    let digits = unsigned_part(text);
    if digits.len() > 0 && all_digits(digits) && digits_value(digits) <= max {
        Some(digits_value(digits))
    } else {
        None
    }
}

/// A digit, as a text.
fn digit_text(digit: u64) -> (text: &'static str)
    requires
        digit < 10,
    ensures
        text@ == seq![digit_char(digit as nat)],
{
    proof {
        reveal_strlit("0");
        reveal_strlit("1");
        reveal_strlit("2");
        reveal_strlit("3");
        reveal_strlit("4");
        reveal_strlit("5");
        reveal_strlit("6");
        reveal_strlit("7");
        reveal_strlit("8");
        reveal_strlit("9");
    }
    if digit == 0 {
        "0"
    } else if digit == 1 {
        "1"
    } else if digit == 2 {
        "2"
    } else if digit == 3 {
        "3"
    } else if digit == 4 {
        "4"
    } else if digit == 5 {
        "5"
    } else if digit == 6 {
        "6"
    } else if digit == 7 {
        "7"
    } else if digit == 8 {
        "8"
    } else {
        "9"
    }
}

/// Writes a number in decimal.
pub fn decimal_text(number: u64) -> (text: String)
    ensures
        text@ == decimal(number as nat),
    decreases number,
{
    if number < 10 {
        digit_text(number).to_owned()
    } else {
        let mut text = decimal_text(number / 10);
        text.append(digit_text(number % 10));
        text
    }
}

/// Writes a number in decimal, with a sign in front if it is negative.
pub fn signed_decimal_text(number: isize) -> (text: String)
    ensures
        text@ == signed_decimal(number as int),
{
    if number < 0 {
        proof {
            reveal_strlit("-");
        }
        // The most negative number has no positive counterpart.
        let magnitude: u64 = (-(number + 1)) as u64 + 1;
        let mut text = "-".to_owned();
        text.append(decimal_text(magnitude).as_str());
        text
    } else {
        decimal_text(number as u64)
    }
}

/// The number that stands in a text from character `start` on, if it is one: digits,
/// with an optional plus sign in front, that do not go beyond a `usize`.
pub fn parse_from(text: &str, start: usize) -> (number: Option<usize>)
    requires
        start <= text@.len(),
    ensures
        match number {
            Some(n) => parsed(text@.skip(start as int), usize::MAX as nat) == Some(n as nat),
            None => parsed(text@.skip(start as int), usize::MAX as nat) is None,
        },
{
    let len: usize = text.unicode_len();
    let ghost rest = text@.skip(start as int);
    let mut first: usize = start;
    if first < len && text.get_char(first) == '+' {
        first = first + 1;
    }
    let ghost digits = text@.skip(first as int);
    proof {
        if first > start {
            assert(digits =~= rest.drop_first());
        }
    }
    if first == len {
        return None;
    }
    let mut value: usize = 0;
    let mut i: usize = first;
    while i < len
        invariant
            len == text@.len(),
            first < len,
            first <= i <= len,
            start <= first,
            digits == text@.skip(first as int),
            rest == text@.skip(start as int),
            digits == unsigned_part(rest),
            forall|k: int| 0 <= k < i - first ==> is_digit(#[trigger] digits[k]),
            value == digits_value(digits.take(i - first)),
        decreases len - i,
    {
        let c = text.get_char(i);
        let ghost k = i - first;
        proof {
            assert(digits[k] == c);
            assert(digits.take(k + 1).drop_last() =~= digits.take(k));
            assert(digits.take(digits.len() as int) =~= digits);
        }
        if c < '0' || c > '9' {
            assert(!is_digit(digits[k]));
            return None;
        }
        let digit: usize = c as usize - '0' as usize;
        if value > (usize::MAX - digit) / 10 {
            proof {
                value_grows(digits, k + 1);
            }
            return None;
        }
        value = value * 10 + digit;
        i = i + 1;
    }
    assert(digits.take(digits.len() as int) =~= digits);
    Some(value)
}

/// Digits that follow do not make a number smaller.
proof fn value_grows(digits: Seq<char>, count: int)
    requires
        0 <= count <= digits.len(),
    ensures
        digits_value(digits.take(count)) <= digits_value(digits),
    decreases digits.len() - count,
{
    if count < digits.len() {
        assert(digits.take(count + 1).drop_last() =~= digits.take(count));
        value_grows(digits, count + 1);
    } else {
        assert(digits.take(count) =~= digits);
    }
}

/// A number that was written in decimal is read back as it was.
pub proof fn parsing_undoes_writing(number: nat, max: nat)
    requires
        number <= max,
    ensures
        parsed(decimal(number), max) == Some(number),
{
    decimal_is_digits(number);
    assert(decimal(number)[0] != '+');
}

/// What is written of a number is made of digits that stand for it.
proof fn decimal_is_digits(number: nat)
    ensures
        decimal(number).len() > 0,
        all_digits(decimal(number)),
        digits_value(decimal(number)) == number,
    decreases number,
{
    let text = decimal(number);
    if number < 10 {
        assert(text.drop_last() =~= Seq::<char>::empty());
        assert(digits_value(text.drop_last()) == 0);
    } else {
        decimal_is_digits(number / 10);
        assert(text.drop_last() =~= decimal(number / 10));
    }
}

/// Whether a text begins with another one.
pub open spec fn starts_with(text: Seq<char>, prefix: Seq<char>) -> bool {
    text.len() >= prefix.len() && text.take(prefix.len() as int) == prefix
}

/// Whether a text begins with another one.
pub fn has_prefix(text: &str, prefix: &str) -> (result: bool)
    ensures
        result == starts_with(text@, prefix@),
{
    let len: usize = prefix.unicode_len();
    if text.unicode_len() < len {
        return false;
    }
    let mut i: usize = 0;
    while i < len
        invariant
            len == prefix@.len(),
            len <= text@.len(),
            i <= len,
            forall|k: int| 0 <= k < i ==> text@[k] == prefix@[k],
        decreases len - i,
    {
        if text.get_char(i) != prefix.get_char(i) {
            assert(text@.take(len as int)[i as int] != prefix@[i as int]);
            return false;
        }
        i = i + 1;
    }
    assert(text@.take(len as int) =~= prefix@);
    true
}

/// Whether a text holds another one, all in one piece.
pub open spec fn holds_text(text: Seq<char>, part: Seq<char>) -> bool {
    exists|at: int|
        0 <= at && at + part.len() <= text.len() && #[trigger] text.subrange(
            at,
            at + part.len(),
        ) == part
}

/// Whether a text holds another one, all in one piece.
pub fn contains_text(text: &str, part: &str) -> (result: bool)
    ensures
        result == holds_text(text@, part@),
{
    let len: usize = text.unicode_len();
    let part_len: usize = part.unicode_len();
    if part_len > len {
        return false;
    }
    let last: usize = len - part_len;
    let mut at: usize = 0;
    loop
        invariant
            len == text@.len(),
            part_len == part@.len(),
            last == len - part_len,
            at <= last,
            forall|k: int|
                0 <= k < at ==> #[trigger] text@.subrange(k, k + part_len) != part@,
        decreases last - at,
    {
        let mut i: usize = 0;
        while i < part_len && text.get_char(at + i) == part.get_char(i)
            invariant
                len == text@.len(),
                part_len == part@.len(),
                last == len - part_len,
                at <= last,
                i <= part_len,
                forall|k: int| 0 <= k < i ==> text@[at + k] == part@[k],
            decreases part_len - i,
        {
            i = i + 1;
        }
        if i == part_len {
            assert(text@.subrange(at as int, at + part_len) =~= part@);
            return true;
        }
        assert(text@.subrange(at as int, at + part_len)[i as int] != part@[i as int]);
        if at == last {
            return false;
        }
        at = at + 1;
    }
}

/// The character that stands for another one in the name of a file.
pub open spec fn file_name_char(c: char) -> char {
    if c == ' ' || c == '/' {
        '_'
    } else {
        c
    }
}

/// A text as it can be the name of a file: underscores stand for spaces and slashes.
pub open spec fn file_name(text: Seq<char>) -> Seq<char> {
    text.map_values(|c: char| file_name_char(c))
}

/// Makes a text the name of a file.
pub fn file_name_text(text: &str) -> (name: String)
    ensures
        name@ == file_name(text@),
{
    proof {
        reveal_strlit("");
        reveal_strlit("_");
    }
    let mut name = "".to_owned();
    let len: usize = text.unicode_len();
    let mut i: usize = 0;
    assert(name@ =~= file_name(text@.take(0)));
    while i < len
        invariant
            i <= len == text@.len(),
            name@ == file_name(text@.take(i as int)),
            "_"@ == seq!['_'],
        decreases len - i,
    {
        let c: char = text.get_char(i);
        if c == ' ' || c == '/' {
            name.append("_");
        } else {
            name.append(text.substring_char(i, i + 1));
        }
        i = i + 1;
        assert(name@ =~= file_name(text@.take(i as int)));
    }
    assert(text@.take(i as int) =~= text@);
    name
}

/// The digit characters stand for the numbers from zero to nine, in order.
pub proof fn digits_are_in_order(digit: nat)
    requires
        digit < 10,
    ensures
        is_digit(digit_char(digit)),
        digit_char(digit) as int == '0' as int + digit,
{
}

/// A number is written in decimal without needless zeros in front, and one that is below zero
/// with a sign.
pub proof fn numbers_are_written_in_decimal(number: nat)
    ensures
        decimal(number).len() > 0,
        all_digits(decimal(number)),
        digits_value(decimal(number)) == number,
        number > 0 ==> decimal(number)[0] != '0',
        decimal(0) == seq!['0'],
        signed_decimal(number as int) == decimal(number),
        number > 0 ==> signed_decimal(-(number as int))[0] == '-' && digits_value(
            signed_decimal(-(number as int)).skip(1),
        ) == number,
    decreases number,
{
    decimal_is_digits(number);
    if number >= 10 {
        numbers_are_written_in_decimal(number / 10);
        assert(decimal(number)[0] == decimal(number / 10)[0]);
    }
    if number > 0 {
        assert(signed_decimal(-(number as int)).skip(1) =~= decimal(number));
    }
}

/// A digit behind others makes their number ten times as large and adds its own.
pub proof fn digits_have_places(digits: Seq<char>, digit: nat)
    requires
        digit < 10,
    ensures
        digits_value(digits.push(digit_char(digit))) == 10 * digits_value(digits) + digit,
        digits_value(Seq::<char>::empty()) == 0,
{
    digits_are_in_order(digit);
    assert(digits.push(digit_char(digit)).drop_last() =~= digits);
}

/// Only digits are read, with at most one sign in front of them, and only numbers that are not
/// too large.
pub proof fn only_numbers_are_read(text: Seq<char>, max: nat, i: int)
    ensures
        text.len() == 0 ==> parsed(text, max) is None,
        text.len() > 0 && all_digits(text) && digits_value(text) <= max ==> parsed(text, max)
            == Some(digits_value(text)) && parsed(seq!['+'] + text, max) == Some(
            digits_value(text),
        ),
        text.len() > 0 && all_digits(text) && digits_value(text) > max ==> parsed(text, max)
            is None,
        0 <= i < text.len() && !is_digit(text[i]) && (i > 0 || text[i] != '+') ==> parsed(text, max)
            is None,
        parsed(seq!['+'], max) is None,
        parsed(text, max) is Some ==> parsed(text, max)->0 <= max,
{
    assert((seq!['+'] + text).drop_first() =~= text);
    if text.len() > 0 && all_digits(text) {
        assert(is_digit(text[0]));
    }
    if 0 <= i < text.len() && !is_digit(text[i]) {
        if text[0] == '+' {
            if i > 0 {
                assert(text.drop_first()[i - 1] == text[i]);
            }
        }
    }
    assert(seq!['+'].drop_first() =~= Seq::<char>::empty());
}

/// A text begins with another one exactly where something can be put behind that one to make
/// it, and holds it exactly where something can be put around it.
pub proof fn what_texts_hold(text: Seq<char>, part: Seq<char>, front: Seq<char>, back: Seq<char>)
    ensures
        starts_with(part + back, part),
        starts_with(text, part) ==> text == part + text.skip(part.len() as int),
        holds_text(front + part + back, part),
        starts_with(text, part) ==> holds_text(text, part),
        holds_text(text, part) ==> exists|at: int|
            0 <= at && at + part.len() <= text.len() && text == #[trigger] text.take(at) + part
                + text.skip(at + part.len()),
        text.len() < part.len() ==> !starts_with(text, part) && !holds_text(text, part),
{
    assert((part + back).take(part.len() as int) =~= part);
    let all = front + part + back;
    assert(all.subrange(front.len() as int, front.len() + part.len() as int) =~= part);
    if starts_with(text, part) {
        assert(text =~= part + text.skip(part.len() as int));
        assert(text.subrange(0, 0 + part.len() as int) =~= text.take(part.len() as int));
    }
    if holds_text(text, part) {
        let at = choose|at: int|
            0 <= at && at + part.len() <= text.len() && #[trigger] text.subrange(
                at,
                at + part.len(),
            ) == part;
        assert(text =~= text.take(at) + text.subrange(at, at + part.len()) + text.skip(
            at + part.len(),
        ));
    }
}

/// The name of a file has no spaces and no slashes. Where the text has one there is an
/// underscore, and the rest is as in the text.
pub proof fn file_names_have_no_spaces(text: Seq<char>, i: int)
    requires
        0 <= i < text.len(),
    ensures
        file_name(text).len() == text.len(),
        file_name(text)[i] != ' ' && file_name(text)[i] != '/',
        text[i] != ' ' && text[i] != '/' ==> file_name(text)[i] == text[i],
        text[i] == ' ' || text[i] == '/' ==> file_name(text)[i] == '_',
{
}

} // verus!

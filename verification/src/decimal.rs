//! Numbers written in base ten.
use vstd::prelude::*;

verus! {

/// Whether `c` is one of the ten digits.
pub open spec fn is_digit(c: char) -> bool {
    '0' <= c <= '9'
}

/// Whether `text` holds digits only.
pub open spec fn all_digits(text: Seq<char>) -> bool {
    forall|i: int| 0 <= i < text.len() ==> is_digit(#[trigger] text[i])
}

/// The number that the digits `text` write in base ten.
pub open spec fn digits_value(text: Seq<char>) -> nat
    decreases text.len(),
{
    if text.len() == 0 {
        0
    } else {
        (10 * digits_value(text.drop_last()) + (text.last() as int - '0' as int)) as nat
    }
}

/// The digit at `place` of `text` as a number, zero where `text` ends before.
pub open spec fn digit_at(text: Seq<char>, place: int) -> nat {
    if 0 <= place < text.len() {
        (text[place] as int - '0' as int) as nat
    } else {
        0
    }
}

/// The digits of a number are worth at least as much as all but the last.
pub proof fn lemma_digits_value_grows(text: Seq<char>)
    requires
        text.len() > 0,
        all_digits(text),
    ensures
        digits_value(text.drop_last()) <= digits_value(text),
        digits_value(text) == 10 * digits_value(text.drop_last()) + digit_at(
            text,
            text.len() - 1,
        ),
        digit_at(text, text.len() - 1) <= 9,
{
    assert(is_digit(text[text.len() - 1]));
}

/// The digit that is worth `value`.
pub open spec fn digit_of(value: nat) -> char
    recommends
        value < 10,
{
    ('0' as nat + value) as char
}

/// `number` written in base ten, without a leading zero but for zero itself.
pub open spec fn decimal(number: nat) -> Seq<char>
    decreases number,
{
    if number < 10 {
        seq![digit_of(number)]
    } else {
        decimal(number / 10).push(digit_of(number % 10))
    }
}

/// `count` times the character `c`.
pub open spec fn fill(c: char, count: int) -> Seq<char> {
    Seq::new(
        if count > 0 {
            count as nat
        } else {
            0
        },
        |i: int| c,
    )
}

/// `text` at the right of `width` columns, the columns before it filled with
/// `c`. A longer text stays as it is.
pub open spec fn right_aligned(text: Seq<char>, width: nat, c: char) -> Seq<char> {
    fill(c, width - text.len()) + text
}

/// `text` at the left of `width` columns, the columns behind it filled with
/// `c`. A longer text stays as it is.
pub open spec fn left_aligned(text: Seq<char>, width: nat, c: char) -> Seq<char> {
    text + fill(c, width - text.len())
}

/// Writing and reading agree: a number written in base ten is digits only,
/// at least one, and they are worth the number.
pub proof fn lemma_decimal_reads_back(number: nat)
    ensures
        decimal(number).len() >= 1,
        all_digits(decimal(number)),
        digits_value(decimal(number)) == number,
    decreases number,
{
    if number < 10 {
        assert(decimal(number).drop_last() =~= Seq::<char>::empty());
        assert(digits_value(decimal(number).drop_last()) == 0);
    } else {
        lemma_decimal_reads_back(number / 10);
        let text = decimal(number);
        assert(text.drop_last() =~= decimal(number / 10));
        assert forall|i: int| 0 <= i < text.len() implies is_digit(#[trigger] text[i]) by {
            if i < text.len() - 1 {
                assert(is_digit(decimal(number / 10)[i]));
            }
        }
    }
}

/// A number below a hundred is written with two digits, below ten with one.
pub proof fn lemma_two_digits(number: nat)
    requires
        number < 100,
    ensures
        decimal(number).len() == if number < 10 {
            1nat
        } else {
            2nat
        },
{
    reveal_with_fuel(decimal, 2);
}

/// One digit as a text.
fn digit_text(value: u128) -> (text: &'static str)
    requires
        value < 10,
    ensures
        text@ == seq![digit_of(value as nat)],
{
    proof {
        reveal_strlit("0");
        reveal_strlit("1");
        reveal_strlit("2");
        reveal_strlit("3");
        reveal_strlit("4");
        reveal_strlit("5");
        reveal_strlit("6");
        reveal_strlit("7");
        reveal_strlit("8");
        reveal_strlit("9");
    }
    let text = match value {
        0 => "0",
        1 => "1",
        2 => "2",
        3 => "3",
        4 => "4",
        5 => "5",
        6 => "6",
        7 => "7",
        8 => "8",
        _ => "9",
    };
    assert(text@ =~= seq![digit_of(value as nat)]);
    text
}

/// Writes a number in base ten
pub fn to_decimal(number: u128) -> (text: String)
    ensures
        text@ == decimal(number as nat),
    decreases number,
{
    if number < 10 {
        digit_text(number).to_owned()
    } else {
        let mut text = to_decimal(number / 10);
        text.append(digit_text(number % 10));
        text
    }
}

/// Counts the digits of a number written in base ten
pub fn decimal_width(number: u128) -> (width: u128)
    ensures
        width == decimal(number as nat).len(),
        1 <= width <= number + 1,
{
    let mut width: u128 = 1;
    let mut rest = number;
    while rest >= 10
        invariant
            1 <= width,
            width + rest <= number + 1,
            decimal(number as nat).len() == decimal(rest as nat).len() + width - 1,
        decreases rest,
    {
        rest = rest / 10;
        width += 1;
    }
    width
}

/// Writes a number in base ten at the right of `width` columns, with zeros in
/// the columns before it
pub fn to_decimal_zero_padded(number: u128, width: usize) -> (text: String)
    ensures
        text@ == right_aligned(decimal(number as nat), width as nat, '0'),
{
    let digits = decimal_width(number);
    let blanks: usize = if width as u128 > digits {
        (width as u128 - digits) as usize
    } else {
        0
    };
    let mut text = String::new();
    let mut filled: usize = 0;
    proof {
        reveal_strlit("0");
    }
    while filled < blanks
        invariant
            "0"@ == seq!['0'],
            text@ == fill('0', filled as int),
            filled <= blanks,
        decreases blanks - filled,
    {
        text.append("0");
        filled += 1;
        assert(text@ =~= fill('0', filled as int));
    }
    assert(text@ =~= fill('0', width - digits));
    text.append(to_decimal(number).as_str());
    text
}

/// Writes a number in base ten at the left of `width` columns, with blanks in
/// the columns behind it
pub fn to_decimal_left_aligned(number: u128, width: usize) -> (text: String)
    ensures
        text@ == left_aligned(decimal(number as nat), width as nat, ' '),
{
    let digits = decimal_width(number);
    let blanks: usize = if width as u128 > digits {
        (width as u128 - digits) as usize
    } else {
        0
    };
    let mut text = to_decimal(number);
    let mut filled: usize = 0;
    proof {
        reveal_strlit(" ");
    }
    while filled < blanks
        invariant
            " "@ == seq![' '],
            text@ == decimal(number as nat) + fill(' ', filled as int),
            filled <= blanks,
        decreases blanks - filled,
    {
        text.append(" ");
        filled += 1;
        assert(text@ =~= decimal(number as nat) + fill(' ', filled as int));
    }
    assert(text@ =~= decimal(number as nat) + fill(' ', width - digits));
    text
}

} // verus!

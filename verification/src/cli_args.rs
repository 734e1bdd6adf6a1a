//! The settings of a circuit breaker, read from the arguments of a command
//! line.
use crate::circuit_breaker::{default_settings, Settings};
use crate::decimal::{
    all_digits, decimal, digit_at, digits_value, is_digit, lemma_decimal_reads_back,
    lemma_digits_value_grows,
};
use vstd::prelude::*;
use vstd::string::is_ascii_spec_bytes;

verus! {

/// `text` without the plus sign that it may begin with.
pub open spec fn unsigned(text: Seq<char>) -> Seq<char> {
    if text.len() > 0 && text[0] == '+' {
        text.subrange(1, text.len() as int)
    } else {
        text
    }
}

/// The whole number that `text` writes, if it writes one that is not above
/// `max`: one digit or more, after a plus sign or none.
pub open spec fn number_of(text: Seq<char>, max: nat) -> Option<nat> {
    let digits = unsigned(text);
    if digits.len() > 0 && all_digits(digits) && digits_value(digits) <= max {
        Some(digits_value(digits))
    } else {
        None
    }
}

/// How many digits `text` begins with.
pub open spec fn leading_digits(text: Seq<char>) -> nat
    decreases text.len(),
{
    if text.len() == 0 || !is_digit(text[0]) {
        0
    } else {
        1 + leading_digits(text.drop_first())
    }
}

/// The smaller of two numbers.
pub open spec fn at_most(value: nat, cap: nat) -> nat {
    if value <= cap {
        value
    } else {
        cap
    }
}

/// The percentage that `text` writes, in hundredths of a percent, if it writes
/// one: one digit or more, after a plus sign or none, and then nothing or a
/// point with any number of digits behind it. Digits after the second behind
/// the point are dropped, and a number too large for a `u32` counts as the
/// largest.
pub open spec fn hundredths_of(text: Seq<char>) -> Option<nat> {
    let digits = unsigned(text);
    let whole = digits.take(leading_digits(digits) as int);
    let rest = digits.skip(leading_digits(digits) as int);
    if whole.len() == 0 {
        None
    } else if rest.len() == 0 {
        Some(at_most(100 * digits_value(whole), u32::MAX as nat))
    } else if rest[0] == '.' && all_digits(rest.drop_first()) {
        Some(
            at_most(
                100 * digits_value(whole) + 10 * digit_at(rest, 1) + digit_at(rest, 2),
                u32::MAX as nat,
            ),
        )
    } else {
        None
    }
}

/// What is written is read back: a number written in base ten reads as that
/// number, unless it is above the largest that is asked for.
pub proof fn lemma_written_number_reads_back(number: nat, max: nat)
    ensures
        number_of(decimal(number), max) == if number <= max {
            Some(number)
        } else {
            None
        },
{
    lemma_decimal_reads_back(number);
    assert(is_digit(decimal(number)[0]));
}

/// A text that begins with `count` digits and goes on with something else, or
/// ends there, begins with no more digits than those.
pub proof fn lemma_leading_digits(text: Seq<char>, count: nat)
    requires
        count <= text.len(),
        all_digits(text.take(count as int)),
        count == text.len() || !is_digit(text[count as int]),
    ensures
        leading_digits(text) == count,
    decreases count,
{
    if count > 0 {
        assert(is_digit(text.take(count as int)[0]));
        let rest = text.drop_first();
        assert forall|i: int| 0 <= i < count - 1 implies is_digit(
            #[trigger] rest.take(count - 1)[i],
        ) by {
            assert(is_digit(text.take(count as int)[i + 1]));
        }
        lemma_leading_digits(rest, (count - 1) as nat);
    }
}

/// Reads the digits of `text` from `from` up to `to`. Gives their number, or
/// `cap` if that is less; nothing where one of them is no digit.
fn read_digits(text: &str, from: usize, to: usize, cap: u128) -> (value: Option<u128>)
    requires
        text.is_ascii(),
        from <= to <= text@.len(),
        cap <= 0xFFFF_FFFF_FFFF_FFFF_FFFF,
    ensures
        value is Some <==> all_digits(text@.subrange(from as int, to as int)),
        value matches Some(number) ==> number == at_most(
            digits_value(text@.subrange(from as int, to as int)),
            cap as nat,
        ),
{
    let mut number: u128 = 0;
    let mut at: usize = from;
    while at < to
        invariant
            text.is_ascii(),
            from <= at <= to <= text@.len(),
            cap <= 0xFFFF_FFFF_FFFF_FFFF_FFFF,
            all_digits(text@.subrange(from as int, at as int)),
            number == at_most(digits_value(text@.subrange(from as int, at as int)), cap as nat),
        decreases to - at,
    {
        let byte = text.get_ascii(at);
        let ghost read = text@.subrange(from as int, at + 1);
        assert(read.drop_last() =~= text@.subrange(from as int, at as int));
        assert(read.last() == text@[at as int]);
        if byte < 48 || byte > 57 {
            assert(!is_digit(text@.subrange(from as int, to as int)[at - from]));
            return None;
        }
        proof {
            assert forall|i: int| 0 <= i < read.len() implies is_digit(#[trigger] read[i]) by {
                if i < read.len() - 1 {
                    assert(is_digit(read.drop_last()[i]));
                }
            }
            lemma_digits_value_grows(read);
        }
        let next = number * 10 + (byte - 48) as u128;
        number = if next > cap {
            cap
        } else {
            next
        };
        at += 1;
    }
    Some(number)
}

/// Reads a whole number that is not above `max`.
pub fn read_number(text: &str, max: u64) -> (value: Option<u64>)
    ensures
        number_of(text@, max as nat) == match value {
            Some(number) => Some(number as nat),
            None => None,
        },
{
    if !text.is_ascii() {
        proof {
            let i = choose|i: int|
                0 <= i < text@.len() && !('\0' <= #[trigger] text@[i] <= '\u{7f}');
            if text@.len() > 0 && text@[0] == '+' {
                assert(!is_digit(unsigned(text@)[i - 1]));
            } else {
                assert(!is_digit(unsigned(text@)[i]));
            }
        }
        return None;
    }
    proof {
        is_ascii_spec_bytes(text);
    }
    let length = text.as_bytes().len();
    let from: usize = if length > 0 && text.get_ascii(0) == 43 {
        1
    } else {
        0
    };
    assert(length > 0 ==> '\0' <= text@[0] <= '\u{7f}');
    assert(unsigned(text@) =~= text@.subrange(from as int, length as int));
    if from == length {
        return None;
    }
    match read_digits(text, from, length, max as u128 + 1) {
        None => None,
        Some(number) => {
            if number > max as u128 {
                None
            } else {
                Some(number as u64)
            }
        },
    }
}

/// Reads a percentage, in hundredths of a percent.
pub fn read_hundredths(text: &str) -> (value: Option<u32>)
    ensures
        hundredths_of(text@) == match value {
            Some(number) => Some(number as nat),
            None => None,
        },
{
    if !text.is_ascii() {
        proof {
            let i = choose|i: int|
                0 <= i < text@.len() && !('\0' <= #[trigger] text@[i] <= '\u{7f}');
            let digits = unsigned(text@);
            let j = if text@.len() > 0 && text@[0] == '+' {
                i - 1
            } else {
                i
            };
            assert(digits[j] == text@[i]);
            lemma_leading_covers(digits);
            let count = leading_digits(digits) as int;
            if j < count {
                assert(is_digit(digits.take(count)[j]));
            }
            if digits[count] == '.' {
                assert(!is_digit(digits.skip(count).drop_first()[j - count - 1]));
            }
        }
        return None;
    }
    proof {
        is_ascii_spec_bytes(text);
    }
    let length = text.as_bytes().len();
    let from: usize = if length > 0 && text.get_ascii(0) == 43 {
        1
    } else {
        0
    };
    assert(length > 0 ==> '\0' <= text@[0] <= '\u{7f}');
    let ghost digits = unsigned(text@);
    assert(digits =~= text@.subrange(from as int, length as int));
    let mut point: usize = from;
    while point < length && text.get_ascii(point) >= 48 && text.get_ascii(point) <= 57
        invariant
            text.is_ascii(),
            from <= point <= length == text@.len(),
            digits == text@.subrange(from as int, length as int),
            all_digits(digits.take(point - from)),
        decreases length - point,
    {
        proof {
            let longer = digits.take(point - from + 1);
            assert forall|i: int| 0 <= i < longer.len() implies is_digit(#[trigger] longer[i]) by {
                if i < point - from {
                    assert(is_digit(digits.take(point - from)[i]));
                }
            }
        }
        point += 1;
    }
    proof {
        lemma_leading_digits(digits, (point - from) as nat);
    }
    let ghost whole = digits.take(point - from);
    let ghost rest = digits.skip(point - from);
    assert(whole =~= text@.subrange(from as int, point as int));
    if point == from {
        return None;
    }
    let units = match read_digits(text, from, point, 42949673) {
        Some(units) => units,
        None => {
            return None;
        },
    };
    if point == length {
        let value = units * 100;
        return Some(
            if value > u32::MAX as u128 {
                u32::MAX
            } else {
                value as u32
            },
        );
    }
    if text.get_ascii(point) != 46 {
        return None;
    }
    assert(rest.drop_first() =~= text@.subrange(point + 1, length as int));
    if read_digits(text, point + 1, length, 0).is_none() {
        return None;
    }
    let tenths: u128 = if point + 1 < length {
        assert(is_digit(rest.drop_first()[0]));
        (text.get_ascii(point + 1) - 48) as u128
    } else {
        0
    };
    let hundredths: u128 = if point + 1 < length && point + 2 < length {
        assert(is_digit(rest.drop_first()[1]));
        (text.get_ascii(point + 2) - 48) as u128
    } else {
        0
    };
    let value = units * 100 + tenths * 10 + hundredths;
    Some(
        if value > u32::MAX as u128 {
            u32::MAX
        } else {
            value as u32
        },
    )
}

/// The digits that a text begins with are digits, and no more than the text.
pub proof fn lemma_leading_covers(text: Seq<char>)
    ensures
        leading_digits(text) <= text.len(),
        all_digits(text.take(leading_digits(text) as int)),
        leading_digits(text) < text.len() ==> !is_digit(text[leading_digits(text) as int]),
    decreases text.len(),
{
    if text.len() > 0 && is_digit(text[0]) {
        let rest = text.drop_first();
        lemma_leading_covers(rest);
        let count = leading_digits(text) as int;
        assert forall|i: int| 0 <= i < count implies is_digit(#[trigger] text.take(count)[i]) by {
            if i > 0 {
                assert(is_digit(rest.take(count - 1)[i - 1]));
            }
        }
    }
}

/// The settings that the command line can give.
#[derive(Debug, Clone, Copy, PartialEq, Eq, Structural)]
pub enum Flag {
    BufferSize,
    MinEvalSize,
    ErrorThreshold,
    RetryTimeout,
    BufferSpanDuration,
    TrialSuccessRequired,
}

/// Why the arguments of a command line give no settings.
#[derive(Debug, Clone, Copy, PartialEq, Eq, Structural)]
pub enum ArgsError {
    /// The flag is the last argument: the value that it asks for is missing.
    MissingArgument(Flag),
    /// The argument after the flag does not write a number.
    NotANumber(Flag),
}

impl Flag {
    /// The name of the setting, which is also the long form of the flag.
    pub open spec fn name(self) -> Seq<char> {
        match self {
            Flag::BufferSize => "buffer_size"@,
            Flag::MinEvalSize => "min_eval_size"@,
            Flag::ErrorThreshold => "error_threshold"@,
            Flag::RetryTimeout => "retry_timeout"@,
            Flag::BufferSpanDuration => "buffer_span_duration"@,
            Flag::TrialSuccessRequired => "trial_success_required"@,
        }
    }

    /// The flag that the argument `text` is, if it is one: a hyphen and a
    /// letter, or two hyphens and the name of the setting.
    pub open spec fn of(text: Seq<char>) -> Option<Flag> {
        if text == "-b"@ || text == "--buffer_size"@ {
            Some(Flag::BufferSize)
        } else if text == "-m"@ || text == "--min_eval_size"@ {
            Some(Flag::MinEvalSize)
        } else if text == "-e"@ || text == "--error_threshold"@ {
            Some(Flag::ErrorThreshold)
        } else if text == "-r"@ || text == "--retry_timeout"@ {
            Some(Flag::RetryTimeout)
        } else if text == "-s"@ || text == "--buffer_span_duration"@ {
            Some(Flag::BufferSpanDuration)
        } else if text == "-t"@ || text == "--trial_success_required"@ {
            Some(Flag::TrialSuccessRequired)
        } else {
            None
        }
    }

    /// `settings` with the setting of this flag taken from `value`, if `value`
    /// writes a number: a count of nodes or events, a percentage, or a number
    /// of seconds.
    pub open spec fn applied(self, settings: Settings, value: Seq<char>) -> Option<Settings> {
        match self {
            Flag::BufferSize => match number_of(value, usize::MAX as nat) {
                Some(number) => Some(Settings { buffer_size: number as usize, ..settings }),
                None => None,
            },
            Flag::MinEvalSize => match number_of(value, usize::MAX as nat) {
                Some(number) => Some(Settings { min_eval_size: number as usize, ..settings }),
                None => None,
            },
            Flag::ErrorThreshold => match hundredths_of(value) {
                Some(number) => Some(Settings { error_threshold: number as u32, ..settings }),
                None => None,
            },
            Flag::RetryTimeout => match number_of(value, u64::MAX as nat) {
                Some(number) => Some(
                    Settings { retry_timeout: (number * 1_000_000_000) as u128, ..settings },
                ),
                None => None,
            },
            Flag::BufferSpanDuration => match number_of(value, u64::MAX as nat) {
                Some(number) => Some(
                    Settings {
                        buffer_span_duration: (number * 1_000_000_000) as u128,
                        ..settings
                    },
                ),
                None => None,
            },
            Flag::TrialSuccessRequired => match number_of(value, usize::MAX as nat) {
                Some(number) => Some(
                    Settings { trial_success_required: number as usize, ..settings },
                ),
                None => None,
            },
        }
    }

    /// Tells which flag an argument is, if any
    pub fn which(text: &String) -> (flag: Option<Flag>)
        ensures
            flag == Flag::of(text@),
    {
        if *text == "-b".to_owned() || *text == "--buffer_size".to_owned() {
            Some(Flag::BufferSize)
        } else if *text == "-m".to_owned() || *text == "--min_eval_size".to_owned() {
            Some(Flag::MinEvalSize)
        } else if *text == "-e".to_owned() || *text == "--error_threshold".to_owned() {
            Some(Flag::ErrorThreshold)
        } else if *text == "-r".to_owned() || *text == "--retry_timeout".to_owned() {
            Some(Flag::RetryTimeout)
        } else if *text == "-s".to_owned() || *text == "--buffer_span_duration".to_owned() {
            Some(Flag::BufferSpanDuration)
        } else if *text == "-t".to_owned() || *text == "--trial_success_required".to_owned() {
            Some(Flag::TrialSuccessRequired)
        } else {
            None
        }
    }

    /// Takes the setting of this flag from `value`
    pub fn apply(self, settings: Settings, value: &String) -> (next: Option<Settings>)
        ensures
            next == self.applied(settings, value@),
    {
        let text = value.as_str();
        match self {
            Flag::BufferSize => match read_number(text, usize::MAX as u64) {
                Some(number) => Some(Settings { buffer_size: number as usize, ..settings }),
                None => None,
            },
            Flag::MinEvalSize => match read_number(text, usize::MAX as u64) {
                Some(number) => Some(Settings { min_eval_size: number as usize, ..settings }),
                None => None,
            },
            Flag::ErrorThreshold => match read_hundredths(text) {
                Some(number) => Some(Settings { error_threshold: number, ..settings }),
                None => None,
            },
            Flag::RetryTimeout => match read_number(text, u64::MAX) {
                Some(number) => Some(
                    Settings { retry_timeout: number as u128 * 1_000_000_000, ..settings },
                ),
                None => None,
            },
            Flag::BufferSpanDuration => match read_number(text, u64::MAX) {
                Some(number) => Some(
                    Settings { buffer_span_duration: number as u128 * 1_000_000_000, ..settings },
                ),
                None => None,
            },
            Flag::TrialSuccessRequired => match read_number(text, usize::MAX as u64) {
                Some(number) => Some(
                    Settings { trial_success_required: number as usize, ..settings },
                ),
                None => None,
            },
        }
    }

    /// The name of the setting
    pub fn get_name(self) -> (name: &'static str)
        ensures
            name@ == self.name(),
    {
        match self {
            Flag::BufferSize => "buffer_size",
            Flag::MinEvalSize => "min_eval_size",
            Flag::ErrorThreshold => "error_threshold",
            Flag::RetryTimeout => "retry_timeout",
            Flag::BufferSpanDuration => "buffer_span_duration",
            Flag::TrialSuccessRequired => "trial_success_required",
        }
    }
}

impl ArgsError {
    /// What the error says to the user.
    pub open spec fn message(self) -> Seq<char> {
        match self {
            ArgsError::MissingArgument(flag) => "The "@ + flag.name()
                + " flag requires an additional argument"@,
            ArgsError::NotANumber(flag) => "The "@ + flag.name() + " argument must be a number"@,
        }
    }

    /// What the error says to the user
    pub fn to_string(&self) -> (text: String)
        ensures
            text@ == self.message(),
    {
        let mut text = "The ".to_owned();
        match self {
            ArgsError::MissingArgument(flag) => {
                text.append(flag.get_name());
                text.append(" flag requires an additional argument");
            },
            ArgsError::NotANumber(flag) => {
                text.append(flag.get_name());
                text.append(" argument must be a number");
            },
        }
        text
    }
}

/// The arguments as texts.
pub open spec fn texts(args: Seq<String>) -> Seq<Seq<char>> {
    Seq::new(args.len(), |i: int| args[i]@)
}

/// What the arguments from `at` on make of `settings`. An argument that is a
/// flag takes the argument after it as its value, whatever that is; any other
/// argument is passed over. The first flag without a value, or with a value
/// that writes no number, is the error.
pub open spec fn settings_from(args: Seq<Seq<char>>, at: nat, settings: Settings) -> Result<
    Settings,
    ArgsError,
>
    decreases args.len() - at,
{
    if at >= args.len() {
        Ok(settings)
    } else {
        match Flag::of(args[at as int]) {
            None => settings_from(args, at + 1, settings),
            Some(flag) => {
                if at + 1 >= args.len() {
                    Err(ArgsError::MissingArgument(flag))
                } else {
                    match flag.applied(settings, args[at as int + 1]) {
                        None => Err(ArgsError::NotANumber(flag)),
                        Some(next) => settings_from(args, at + 2, next),
                    }
                }
            },
        }
    }
}

/// Reads the settings from the arguments of a command line, starting from the
/// default settings.
pub fn parse_args(args: Vec<String>) -> (settings: Result<Settings, ArgsError>)
    ensures
        settings == settings_from(texts(args@), 0, default_settings()),
{
    let mut settings = Settings::default();
    let mut at: usize = 0;
    while at < args.len()
        invariant
            at <= args.len(),
            settings_from(texts(args@), at as nat, settings) == settings_from(
                texts(args@),
                0,
                default_settings(),
            ),
        decreases args.len() - at,
    {
        match Flag::which(&args[at]) {
            None => {
                at += 1;
            },
            Some(flag) => {
                if at + 1 >= args.len() {
                    return Err(ArgsError::MissingArgument(flag));
                }
                match flag.apply(settings, &args[at + 1]) {
                    None => {
                        return Err(ArgsError::NotANumber(flag));
                    },
                    Some(next) => {
                        settings = next;
                        at += 2;
                    },
                }
            },
        }
    }
    Ok(settings)
}

} // verus!

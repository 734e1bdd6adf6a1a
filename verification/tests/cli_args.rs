use circuitbreakers::cli_args::{
    parse_args, read_hundredths, read_number, ArgsError, Flag,
};
use circuitbreakers::Settings;
use std::time::Duration;

/// A threshold given as a percentage, in hundredths of a percent: the largest
/// number of hundredths that is not above it.
fn hundredths(percent: f32) -> u32 {
    let mut threshold = (percent * 100.0).floor() as u32;
    while threshold > 0 && threshold as f32 / 100.0 > percent {
        threshold -= 1;
    }
    while (threshold + 1) as f32 / 100.0 <= percent {
        threshold += 1;
    }
    threshold
}

/// The settings that the arguments give.
fn parsed(args: Vec<String>) -> Settings {
    parse_args(args).unwrap()
}

fn args(words: &[&str]) -> Vec<String> {
    words.iter().map(|word| String::from(*word)).collect()
}


#[test]
fn parse_args_long_flags() {
    assert_eq!(
        parsed(vec![
            String::from("--buffer_size"),
            String::from("42"),
            String::from("--min_eval_size"),
            String::from("11"),
            String::from("--error_threshold"),
            String::from("10.78"),
            String::from("--retry_timeout"),
            String::from("200"),
            String::from("--buffer_span_duration"),
            String::from("550"),
            String::from("--trial_success_required"),
            String::from("666"),
            String::from("--unknown"),
        ]),
        Settings {
            buffer_size: 42,
            min_eval_size: 11,
            error_threshold: hundredths(10.78),
            retry_timeout: Duration::from_secs(200).as_nanos(),
            buffer_span_duration: Duration::from_secs(550).as_nanos(),
            trial_success_required: 666,
        }
    );
}

#[test]
fn parse_args_short_flags() {
    assert_eq!(
        parsed(vec![
            String::from("-b"),
            String::from("0"),
            String::from("-m"),
            String::from("875"),
            String::from("-e"),
            String::from("5647.1"),
            String::from("-r"),
            String::from("62"),
            String::from("-s"),
            String::from("279"),
            String::from("-t"),
            String::from("0"),
            String::from("-x"),
        ]),
        Settings {
            buffer_size: 0,
            min_eval_size: 875,
            error_threshold: hundredths(5647.1),
            retry_timeout: Duration::from_secs(62).as_nanos(),
            buffer_span_duration: Duration::from_secs(279).as_nanos(),
            trial_success_required: 0,
        }
    );
}

#[test]
fn parse_args_buffer_size() {
    assert_eq!(
        parsed(vec![String::from("--buffer_size"), String::from("10")]),
        Settings {
            buffer_size: 10,
            ..Default::default()
        }
    );
    assert_eq!(
        parsed(vec![String::from("-b"), String::from("0")]),
        Settings {
            buffer_size: 0,
            ..Default::default()
        }
    );
    assert_eq!(
        parsed(vec![String::from("-b"), String::from("999")]),
        Settings {
            buffer_size: 999,
            ..Default::default()
        }
    );
}

#[test]
#[should_panic]
fn parse_args_buffer_size_error_negative() {
    parse_args(vec![String::from("-b"), String::from("-9")]).unwrap();
}

#[test]
#[should_panic]
fn parse_args_buffer_size_error_missing() {
    parse_args(vec![String::from("-b")]).unwrap();
}

#[test]
#[should_panic]
fn parse_args_buffer_size_error_missing2() {
    parse_args(vec![String::from("-b"), String::from("-b")]).unwrap();
}

#[test]
fn parse_args_min_eval_size() {
    assert_eq!(
        parsed(vec![String::from("--min_eval_size"), String::from("10")]),
        Settings {
            min_eval_size: 10,
            ..Default::default()
        }
    );
    assert_eq!(
        parsed(vec![String::from("-m"), String::from("0")]),
        Settings {
            min_eval_size: 0,
            ..Default::default()
        }
    );
    assert_eq!(
        parsed(vec![String::from("-m"), String::from("999")]),
        Settings {
            min_eval_size: 999,
            ..Default::default()
        }
    );
}

#[test]
#[should_panic]
fn parse_args_min_eval_size_error_negative() {
    parse_args(vec![String::from("-m"), String::from("-9")]).unwrap();
}

#[test]
#[should_panic]
fn parse_args_min_eval_size_error_missing() {
    parse_args(vec![String::from("-m")]).unwrap();
}

#[test]
#[should_panic]
fn parse_args_min_eval_size_error_missing2() {
    parse_args(vec![String::from("-m"), String::from("-m")]).unwrap();
}

#[test]
fn parse_args_error_threshold() {
    assert_eq!(
        parsed(vec![String::from("--error_threshold"), String::from("10")]),
        Settings {
            error_threshold: hundredths(10.0),
            ..Default::default()
        }
    );
    assert_eq!(
        parsed(vec![String::from("-e"), String::from("0")]),
        Settings {
            error_threshold: hundredths(0.0),
            ..Default::default()
        }
    );
    assert_eq!(
        parsed(vec![String::from("-e"), String::from("999.9")]),
        Settings {
            error_threshold: hundredths(999.9),
            ..Default::default()
        }
    );
}

#[test]
#[should_panic]
fn parse_args_error_threshold_error_missing() {
    parse_args(vec![String::from("-e")]).unwrap();
}

#[test]
#[should_panic]
fn parse_args_error_threshold_error_missing2() {
    parse_args(vec![String::from("-e"), String::from("-e")]).unwrap();
}

#[test]
fn parse_args_retry_timeout() {
    assert_eq!(
        parsed(vec![String::from("--retry_timeout"), String::from("10")]),
        Settings {
            retry_timeout: Duration::from_secs(10).as_nanos(),
            ..Default::default()
        }
    );
    assert_eq!(
        parsed(vec![String::from("-r"), String::from("0")]),
        Settings {
            retry_timeout: Duration::from_secs(0).as_nanos(),
            ..Default::default()
        }
    );
    assert_eq!(
        parsed(vec![String::from("-r"), String::from("999")]),
        Settings {
            retry_timeout: Duration::from_secs(999).as_nanos(),
            ..Default::default()
        }
    );
}

#[test]
#[should_panic]
fn parse_args_retry_timeout_error_negative() {
    parse_args(vec![String::from("-r"), String::from("-9")]).unwrap();
}

#[test]
#[should_panic]
fn parse_args_retry_timeout_error_missing() {
    parse_args(vec![String::from("-r")]).unwrap();
}

#[test]
#[should_panic]
fn parse_args_retry_timeout_error_missing2() {
    parse_args(vec![String::from("-r"), String::from("-r")]).unwrap();
}

#[test]
fn parse_args_buffer_span_duration() {
    assert_eq!(
        parsed(vec![String::from("--buffer_span_duration"), String::from("10")]),
        Settings {
            buffer_span_duration: Duration::from_secs(10).as_nanos(),
            ..Default::default()
        }
    );
    assert_eq!(
        parsed(vec![String::from("-s"), String::from("0")]),
        Settings {
            buffer_span_duration: Duration::from_secs(0).as_nanos(),
            ..Default::default()
        }
    );
    assert_eq!(
        parsed(vec![String::from("-s"), String::from("999")]),
        Settings {
            buffer_span_duration: Duration::from_secs(999).as_nanos(),
            ..Default::default()
        }
    );
}

#[test]
#[should_panic]
fn parse_args_buffer_span_duration_error_negative() {
    parse_args(vec![String::from("-s"), String::from("-9")]).unwrap();
}

#[test]
#[should_panic]
fn parse_args_buffer_span_duration_error_missing() {
    parse_args(vec![String::from("-s")]).unwrap();
}

#[test]
#[should_panic]
fn parse_args_buffer_span_duration_error_missing2() {
    parse_args(vec![String::from("-s"), String::from("-s")]).unwrap();
}

#[test]
fn parse_args_trial_success_required() {
    assert_eq!(
        parsed(vec![String::from("--trial_success_required"), String::from("10")]),
        Settings {
            trial_success_required: 10,
            ..Default::default()
        }
    );
    assert_eq!(
        parsed(vec![String::from("-t"), String::from("0")]),
        Settings {
            trial_success_required: 0,
            ..Default::default()
        }
    );
    assert_eq!(
        parsed(vec![String::from("-t"), String::from("999")]),
        Settings {
            trial_success_required: 999,
            ..Default::default()
        }
    );
}

#[test]
#[should_panic]
fn parse_args_trial_success_required_error_negative() {
    parse_args(vec![String::from("-t"), String::from("-9")]).unwrap();
}

#[test]
#[should_panic]
fn parse_args_trial_success_required_error_missing() {
    parse_args(vec![String::from("-t")]).unwrap();
}

#[test]
#[should_panic]
fn parse_args_trial_success_required_error_missing2() {
    parse_args(vec![String::from("-t"), String::from("-t")]).unwrap();
}


#[test]
fn parse_args_without_arguments_gives_the_defaults() {
    assert_eq!(parse_args(Vec::new()), Ok(Settings::default()));
    assert_eq!(parse_args(args(&["--unknown", "12", "x"])), Ok(Settings::default()));
}

#[test]
fn parse_args_names_the_flag_whose_value_is_missing() {
    assert_eq!(parse_args(args(&["-b"])), Err(ArgsError::MissingArgument(Flag::BufferSize)));
    assert_eq!(parse_args(args(&["-m"])), Err(ArgsError::MissingArgument(Flag::MinEvalSize)));
    assert_eq!(parse_args(args(&["-e"])), Err(ArgsError::MissingArgument(Flag::ErrorThreshold)));
    assert_eq!(parse_args(args(&["-r"])), Err(ArgsError::MissingArgument(Flag::RetryTimeout)));
    assert_eq!(
        parse_args(args(&["-s"])),
        Err(ArgsError::MissingArgument(Flag::BufferSpanDuration))
    );
    assert_eq!(
        parse_args(args(&["-b", "3", "--trial_success_required"])),
        Err(ArgsError::MissingArgument(Flag::TrialSuccessRequired))
    );
}

#[test]
fn parse_args_names_the_flag_whose_value_is_no_number() {
    assert_eq!(parse_args(args(&["-b", "-9"])), Err(ArgsError::NotANumber(Flag::BufferSize)));
    assert_eq!(parse_args(args(&["-b", "-b"])), Err(ArgsError::NotANumber(Flag::BufferSize)));
    assert_eq!(parse_args(args(&["-m", "1.5"])), Err(ArgsError::NotANumber(Flag::MinEvalSize)));
    assert_eq!(parse_args(args(&["-e", "-e"])), Err(ArgsError::NotANumber(Flag::ErrorThreshold)));
    assert_eq!(parse_args(args(&["-r", ""])), Err(ArgsError::NotANumber(Flag::RetryTimeout)));
    assert_eq!(
        parse_args(args(&["-s", "12s"])),
        Err(ArgsError::NotANumber(Flag::BufferSpanDuration))
    );
    assert_eq!(
        parse_args(args(&["-t", "٣"])),
        Err(ArgsError::NotANumber(Flag::TrialSuccessRequired))
    );
}

#[test]
fn parse_args_stops_at_the_first_error() {
    assert_eq!(
        parse_args(args(&["-b", "x", "-m"])),
        Err(ArgsError::NotANumber(Flag::BufferSize))
    );
    assert_eq!(
        parse_args(args(&["-m", "7", "-r", "x", "-b"])),
        Err(ArgsError::NotANumber(Flag::RetryTimeout))
    );
}

#[test]
fn parse_args_takes_the_last_of_a_repeated_flag() {
    assert_eq!(
        parse_args(args(&["-b", "7", "--buffer_size", "9"])),
        Ok(Settings { buffer_size: 9, ..Settings::default() })
    );
}

#[test]
fn parse_args_takes_the_argument_after_a_flag_as_its_value() {
    // "12" is the value of -b, so the -m after it is a flag again
    assert_eq!(
        parse_args(args(&["x", "-b", "12", "-m", "13", "y"])),
        Ok(Settings { buffer_size: 12, min_eval_size: 13, ..Settings::default() })
    );
}

#[test]
fn parse_args_counts_durations_in_seconds() {
    assert_eq!(
        parse_args(args(&["-r", "1", "-s", "18446744073709551615"])),
        Ok(Settings {
            retry_timeout: 1_000_000_000,
            buffer_span_duration: 18_446_744_073_709_551_615_000_000_000,
            ..Settings::default()
        })
    );
    assert_eq!(
        parse_args(args(&["-s", "18446744073709551616"])),
        Err(ArgsError::NotANumber(Flag::BufferSpanDuration))
    );
}

#[test]
fn error_messages() {
    assert_eq!(
        ArgsError::MissingArgument(Flag::BufferSize).to_string(),
        "The buffer_size flag requires an additional argument"
    );
    assert_eq!(
        ArgsError::NotANumber(Flag::BufferSize).to_string(),
        "The buffer_size argument must be a number"
    );
    assert_eq!(
        ArgsError::MissingArgument(Flag::MinEvalSize).to_string(),
        "The min_eval_size flag requires an additional argument"
    );
    assert_eq!(
        ArgsError::NotANumber(Flag::ErrorThreshold).to_string(),
        "The error_threshold argument must be a number"
    );
    assert_eq!(
        ArgsError::MissingArgument(Flag::RetryTimeout).to_string(),
        "The retry_timeout flag requires an additional argument"
    );
    assert_eq!(
        ArgsError::NotANumber(Flag::BufferSpanDuration).to_string(),
        "The buffer_span_duration argument must be a number"
    );
    assert_eq!(
        ArgsError::NotANumber(Flag::TrialSuccessRequired).to_string(),
        "The trial_success_required argument must be a number"
    );
}

#[test]
fn flags_in_both_forms() {
    let forms = [
        ("-b", "--buffer_size", Flag::BufferSize),
        ("-m", "--min_eval_size", Flag::MinEvalSize),
        ("-e", "--error_threshold", Flag::ErrorThreshold),
        ("-r", "--retry_timeout", Flag::RetryTimeout),
        ("-s", "--buffer_span_duration", Flag::BufferSpanDuration),
        ("-t", "--trial_success_required", Flag::TrialSuccessRequired),
    ];
    for (short, long, flag) in forms {
        assert_eq!(Flag::which(&String::from(short)), Some(flag));
        assert_eq!(Flag::which(&String::from(long)), Some(flag));
        assert_eq!(format!("--{}", flag.get_name()), long);
    }
    assert_eq!(Flag::which(&String::from("-a")), None);
    assert_eq!(Flag::which(&String::from("--help")), None);
    assert_eq!(Flag::which(&String::from("b")), None);
    assert_eq!(Flag::which(&String::from("-B")), None);
    assert_eq!(Flag::which(&String::from("--buffer_size ")), None);
    assert_eq!(Flag::which(&String::from("")), None);
}

#[test]
fn read_number_reads_whole_numbers() {
    assert_eq!(read_number("0", 10), Some(0));
    assert_eq!(read_number("7", 10), Some(7));
    assert_eq!(read_number("10", 10), Some(10));
    assert_eq!(read_number("11", 10), None);
    assert_eq!(read_number("+5", 10), Some(5));
    assert_eq!(read_number("007", 10), Some(7));
    assert_eq!(read_number("18446744073709551615", u64::MAX), Some(u64::MAX));
    assert_eq!(read_number("18446744073709551616", u64::MAX), None);
    assert_eq!(read_number("99999999999999999999999999999999999999999999", u64::MAX), None);
    assert_eq!(
        read_number("00000000000000000000000000000000000000000000000000000042", u64::MAX),
        Some(42)
    );
}

#[test]
fn read_number_refuses_what_is_no_whole_number() {
    for text in ["", "+", "-", "-1", "-0", "++1", "1+", " 1", "1 ", "1.0", "1e3", "0x10", "١", "1é"] {
        assert_eq!(read_number(text, u64::MAX), None, "{:?}", text);
    }
}

#[test]
fn read_hundredths_reads_percentages() {
    assert_eq!(read_hundredths("0"), Some(0));
    assert_eq!(read_hundredths("10"), Some(1000));
    assert_eq!(read_hundredths("10.78"), Some(1078));
    assert_eq!(read_hundredths("10.7"), Some(1070));
    assert_eq!(read_hundredths("10."), Some(1000));
    assert_eq!(read_hundredths("+39.99"), Some(3999));
    assert_eq!(read_hundredths("39.99999"), Some(3999));
    assert_eq!(read_hundredths("0.009"), Some(0));
    assert_eq!(read_hundredths("0.01"), Some(1));
    assert_eq!(read_hundredths("999.9"), Some(99990));
    assert_eq!(read_hundredths("5647.1"), Some(564710));
    assert_eq!(read_hundredths("100"), Some(10000));
}

#[test]
fn read_hundredths_stops_at_the_largest() {
    assert_eq!(read_hundredths("42949672.95"), Some(u32::MAX));
    assert_eq!(read_hundredths("42949672.94"), Some(u32::MAX - 1));
    assert_eq!(read_hundredths("42949672.96"), Some(u32::MAX));
    assert_eq!(read_hundredths("42949673"), Some(u32::MAX));
    assert_eq!(read_hundredths("99999999999999999999999999999999999999999999.5"), Some(u32::MAX));
}

#[test]
fn read_hundredths_refuses_what_is_no_percentage() {
    for text in
        ["", "+", ".", ".5", "-1", "1..2", "1.2.3", "1,5", "1e3", "1.5%", " 1", "1.٥", "é", "+.5", "1.+5"]
    {
        assert_eq!(read_hundredths(text), None, "{:?}", text);
    }
}

#[test]
fn hundredths_of_a_percentage_agree_with_what_is_read() {
    assert_eq!(read_hundredths("10.78"), Some(hundredths(10.78)));
    assert_eq!(read_hundredths("5647.1"), Some(hundredths(5647.1)));
    assert_eq!(read_hundredths("999.9"), Some(hundredths(999.9)));
    assert_eq!(read_hundredths("99.99"), Some(hundredths(99.99)));
}

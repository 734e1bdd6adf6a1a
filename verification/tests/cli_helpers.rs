use circuitbreakers::cli_helpers::{help, USAGE};
use circuitbreakers::Settings;

#[test]
fn help_test() {
    let settings = Settings::default();
    let debug_output = format!("{:#?}", settings);

    let field_names: Vec<_> = debug_output
        .lines()
        .skip(1)
        .filter_map(|line| line.trim().split_once(":").map(|(field, _)| field.trim()))
        .collect();

    let help = help();
    for field in &field_names {
        assert!(help.contains(field), "Field name '{}' not found in help", field);
    }
}

#[test]
fn help_names_every_setting() {
    let help = help();
    for field in [
        "buffer_size",
        "buffer_span_duration",
        "min_eval_size",
        "error_threshold",
        "retry_timeout",
        "trial_success_required",
    ] {
        assert!(help.contains(field));
    }
}

#[test]
fn help_is_the_usage_text() {
    assert_eq!(help(), USAGE);
    assert!(help().starts_with("\nUsage: circuitbreaker [OPTIONS]\n"));
    assert!(help().contains("  -h, --help                           Display this help message and exit.\n"));
    assert!(help().ends_with("Display version information and exit.\n\t"));
}

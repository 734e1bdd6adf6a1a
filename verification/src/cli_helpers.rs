//! The text that tells how the program is called.
use vstd::prelude::*;

verus! {

/// The usage text: the options of the program, one to a paragraph.
pub const USAGE: &'static str = r#"
Usage: circuitbreaker [OPTIONS]

Options:
  -b, --buffer_size            SIZE    Specify the capacity of the ring buffer.
  -m, --min_eval_size          NUMBER  Define the minimum number of events
                                       required in the buffer to evaluate the
                                       error rate.
  -e, --error_threshold        FLOAT   Set the error rate percentage that will
                                       trigger the circuit to open.
  -r, --retry_timeout          SECONDS Specify the duration (in seconds) the
                                       circuit breaker remains open before
                                       transitioning to half-open.
  -s, --buffer_span_duration   SECONDS Determine the duration (in seconds) each
                                       node/span in the buffer stores data.
  -t, --trial_success_required NUMBER  Set the number of consecutive successes
                                       required to close a half-open circuit.
  -a, --noautoplay                     Don't auto-play the visualizer and
                                       refresh every second.
  -h, --help                           Display this help message and exit.
  -v, --version                        Display version information and exit.
	"#;

/// The usage text, as a string of its own.
pub fn help() -> (text: String)
    ensures
        text@ == USAGE@,
{
    USAGE.to_owned()
}

} // verus!

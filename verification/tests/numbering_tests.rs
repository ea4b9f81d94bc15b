use photo_composer::numbering::extract_number_from_filename;
use photo_composer::numbering::u64_to_string;

#[test]
fn first_digit_run_is_kept_verbatim() {
    assert_eq!(extract_number_from_filename("img045_final", 7), "045");
}

#[test]
fn no_digit_falls_back_to_position() {
    assert_eq!(extract_number_from_filename("photo", 7), "7");
}

#[test]
fn first_run_wins_over_later_runs() {
    assert_eq!(extract_number_from_filename("7_of_10", 3), "7");
}

#[test]
fn leading_zeros_and_long_runs_survive() {
    assert_eq!(extract_number_from_filename("a000123456789b42", 1), "000123456789");
}

#[test]
fn digit_run_at_the_start_of_the_name() {
    assert_eq!(extract_number_from_filename("12ab", 9), "12");
}

#[test]
fn empty_name_uses_the_fallback() {
    assert_eq!(extract_number_from_filename("", 15), "15");
}

#[test]
fn fallback_renders_decimally() {
    assert_eq!(u64_to_string(0), "0");
    assert_eq!(u64_to_string(9), "9");
    assert_eq!(u64_to_string(10), "10");
    assert_eq!(u64_to_string(90210), "90210");
}

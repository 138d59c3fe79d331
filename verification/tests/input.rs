use faustprobe::input::{check_impulse_channel, parse_input, InputSpec};

fn every_input_mode() {
    assert_eq!(parse_input("zero").unwrap(), InputSpec::Zero);
    assert_eq!(parse_input("impulse").unwrap(), InputSpec::Impulse);
    assert_eq!(parse_input("impulse:1").unwrap(), InputSpec::ImpulseChannel(1));
    assert_eq!(parse_input("dc").unwrap(), InputSpec::Dc);
    assert_eq!(parse_input("white").unwrap(), InputSpec::White(0));
    assert_eq!(parse_input("white:9").unwrap(), InputSpec::White(9));
    assert_eq!(parse_input("sine:440").unwrap(), InputSpec::Sine("440".to_owned()));
}

#[test]
fn setup_parses_every_input_mode() {
    every_input_mode();
}

#[test]
fn faustprobe_parses_every_input_mode() {
    every_input_mode();
}

#[test]
fn faust_probe_parses_every_input_mode() {
    every_input_mode();
}

#[test]
fn setup_rejects_sine_without_frequency() {
    // Defaulting to some arbitrary pitch would silently measure the wrong
    // operating point.
    assert!(parse_input("sine").is_err());
}

#[test]
fn faustprobe_rejects_sine_without_frequency() {
    assert!(parse_input("sine").is_err());
}

#[test]
fn faust_probe_rejects_sine_without_frequency() {
    assert!(parse_input("sine").is_err());
}

#[test]
fn setup_rejects_unknown_input_mode() {
    assert!(parse_input("triangle").is_err());
}

#[test]
fn faustprobe_rejects_unknown_input_mode() {
    assert!(parse_input("triangle").is_err());
}

#[test]
fn faust_probe_rejects_unknown_input_mode() {
    assert!(parse_input("triangle").is_err());
}

#[test]
fn a_file_takes_a_trailing_channel() {
    assert_eq!(
        parse_input("file:take:2.wav:1").unwrap(),
        InputSpec::File("take:2.wav".to_owned(), Some(1))
    );
    assert_eq!(
        parse_input("file:take:two.wav").unwrap(),
        InputSpec::File("take:two.wav".to_owned(), None)
    );
    assert_eq!(
        parse_input("file").unwrap_err(),
        "`--in file` needs a path, e.g. file:target.wav"
    );
}

#[test]
fn a_bad_argument_is_named() {
    assert_eq!(parse_input("impulse:x").unwrap_err(), "invalid channel in `--in impulse:x`");
    assert_eq!(parse_input("white:-1").unwrap_err(), "invalid seed in `--in white:-1`");
    assert_eq!(parse_input("zero:1").unwrap_err(), "unknown input mode `zero:1`");
    assert_eq!(parse_input("sine").unwrap_err(), "`--in sine` needs a frequency, e.g. sine:440");
}

#[test]
fn an_impulse_must_reach_an_input() {
    assert!(check_impulse_channel(0, 1).is_ok());
    assert_eq!(
        check_impulse_channel(0, 0).unwrap_err(),
        "--in impulse:0: the program has no input"
    );
    assert_eq!(
        check_impulse_channel(1, 1).unwrap_err(),
        "--in impulse:1: the program has one input, channel 0"
    );
    assert_eq!(
        check_impulse_channel(5, 3).unwrap_err(),
        "--in impulse:5: the program has 3 inputs, channels 0 to 2"
    );
}

use faustprobe::cli::{
    parse_checks, refuse, refuse_scalar_only, reject_protocol_conflicts, verification_requested,
    Check, CompilerOptions, Format, ModeFlags, Protocol, Sink, DEFAULT_BRA_TAPE,
    DEFAULT_CHECK_BLOCKS,
};
use faustprobe::freqresp;
use faustprobe::train;

fn strings(v: &[&str]) -> Vec<String> {
    v.iter().map(|s| (*s).to_owned()).collect()
}

#[test]
fn checks_are_named_as_in_the_report() {
    assert_eq!(Check::Block(7).name(), "block=7");
    assert_eq!(Check::Reset.name(), "reset");
    assert_eq!(Check::Determinism.name(), "determinism");
    assert_eq!(Check::Width.name(), "width");
    assert_eq!(DEFAULT_CHECK_BLOCKS, [1, 7, 512]);
}

#[test]
fn all_is_every_check_and_the_own_block_is_dropped() {
    assert_eq!(
        parse_checks(&strings(&["all"]), 512).unwrap(),
        [Check::Block(1), Check::Block(7), Check::Reset, Check::Determinism, Check::Width]
    );
    assert_eq!(
        parse_checks(&strings(&["block=64, 3,64", "reset", "block"]), 64).unwrap(),
        [Check::Block(3), Check::Reset, Check::Block(1), Check::Block(7), Check::Block(512)]
    );
    assert_eq!(parse_checks(&[], 64).unwrap(), []);
}

#[test]
fn a_check_that_is_not_one_is_refused() {
    assert_eq!(
        parse_checks(&strings(&["speed"]), 64).unwrap_err(),
        "unknown check `speed` (expected block[=N1,N2,...], reset, determinism, width or all)"
    );
    assert_eq!(
        parse_checks(&strings(&["block=8,0"]), 64).unwrap_err(),
        "`--check block=8,0`: `0` is not a block size"
    );
    assert_eq!(
        parse_checks(&strings(&["block=8, x"]), 64).unwrap_err(),
        "`--check block=8, x`: ` x` is not a block size"
    );
    assert_eq!(
        parse_checks(&strings(&["block="]), 64).unwrap_err(),
        "`--check block=`: `` is not a block size"
    );
}

#[test]
fn compiler_options_are_spelled_as_the_compiler_reads_them() {
    let mut options = CompilerOptions::default();
    assert!(options.argv().is_empty());
    assert!(!options.any());
    options.vec = true;
    options.vs = Some(64);
    options.process_name = Some("other".to_owned());
    options.table_init_sample_rate = Some(-48_000);
    options.scheduling_strategy = Some(3);
    options.check_table = Some(0);
    assert_eq!(
        options.argv(),
        [
            "-vec",
            "-pn",
            "other",
            "-ss",
            "3",
            "-ct",
            "0",
            "--table-init-sample-rate",
            "-48000",
            "-vs",
            "64"
        ]
    );
    assert!(options.any());
}

#[test]
fn the_first_flag_given_is_refused() {
    let flags = [("--sweep", false), ("--at", true), ("--set", true)];
    assert_eq!(
        refuse(&flags, |flag| format!("{flag} does not apply here")).unwrap_err(),
        "--at does not apply here"
    );
    assert!(refuse(&[("--sweep", false)], |flag| flag.to_owned()).is_ok());
}

#[test]
fn annotations_go_where_rows_do_not() {
    assert_eq!(Sink::beside(true), Sink::Stderr);
    assert_eq!(Sink::beside(false), Sink::Stdout);
}

/// The flags of a plain run with nothing given.
fn plain() -> ModeFlags {
    ModeFlags {
        sr: 44_100,
        block: 64,
        input: "impulse".to_owned(),
        skip: 0,
        every: 1,
        bargraphs: false,
        sets: Vec::new(),
        format: Format::Csv,
        sweeps: Vec::new(),
        reduce: None,
        ats: Vec::new(),
        notes: Vec::new(),
        chords: Vec::new(),
        nvoices: 0,
        precision: None,
        out: None,
        fail_above: false,
        evals: Vec::new(),
        compare: None,
        reference: None,
        checks: Vec::new(),
        freqresp: None,
        protocol: Protocol::Free,
        compiler: CompilerOptions::default(),
        bra_tape: DEFAULT_BRA_TAPE,
    }
}

/// The flags of a protocol run with nothing else given.
fn protocol_run() -> ModeFlags {
    let mut f = plain();
    f.sr = 44_100;
    f.block = 64;
    f.format = Format::Ir;
    f.protocol = Protocol::ImpulseTest;
    f
}

#[test]
fn verification_is_requested_by_any_of_its_three_flags() {
    assert!(!verification_requested(&plain()));
    let mut f = plain();
    f.reference = Some("r.csv".to_owned());
    assert!(verification_requested(&f));
    let mut f = plain();
    f.checks = strings(&["reset"]);
    assert!(verification_requested(&f));
}

#[test]
fn the_protocol_takes_its_own_conditions() {
    assert!(reject_protocol_conflicts(&protocol_run(), 44_100, 64).is_ok());
}

#[test]
fn the_protocol_names_every_flag_it_does_not_take() {
    let mut f = protocol_run();
    f.sr = 48_000;
    f.input = "zero".to_owned();
    f.out = Some("o.wav".to_owned());
    f.compare = Some("other.dsp".to_owned());
    assert_eq!(
        reject_protocol_conflicts(&f, 44_100, 64).unwrap_err(),
        "--protocol impulse-test fixes the rendering conditions; remove --sr, --in, --out, --compare/--ref/--check"
    );
}

#[test]
fn the_protocol_refuses_another_format() {
    let mut f = protocol_run();
    f.format = Format::Json;
    f.notes = strings(&["60"]);
    assert_eq!(
        reject_protocol_conflicts(&f, 44_100, 64).unwrap_err(),
        "--protocol impulse-test fixes the rendering conditions; remove --format, --note/--chord"
    );
}

#[test]
fn a_training_refuses_the_first_flag_it_does_not_take() {
    assert!(train::refuse_flags(&plain()).is_ok());
    let mut f = plain();
    f.out = Some("o.wav".to_owned());
    f.bargraphs = true;
    assert_eq!(
        train::refuse_flags(&f).unwrap_err(),
        "--bargraphs cannot be combined with --train / --fd-check"
    );
    let mut f = plain();
    f.protocol = Protocol::ImpulseTest;
    assert_eq!(
        train::refuse_flags(&f).unwrap_err(),
        "--protocol impulse-test cannot be combined with --train / --fd-check"
    );
}

#[test]
fn a_frequency_response_says_why_it_refuses_a_flag() {
    assert!(freqresp::refuse_flags(&plain()).is_ok());
    let mut f = plain();
    f.every = 4;
    f.format = Format::Ir;
    assert_eq!(
        freqresp::refuse_flags(&f).unwrap_err(),
        "--every cannot be combined with --freqresp: the rows are frequencies, not frames"
    );
    let mut f = plain();
    f.format = Format::Ir;
    assert_eq!(
        freqresp::refuse_flags(&f).unwrap_err(),
        "--format ir cannot be combined with --freqresp: `.ir` holds frames"
    );
}

#[test]
fn a_polyphonic_run_refuses_what_reaches_the_scalar_probe_only() {
    assert!(refuse_scalar_only(&plain()).is_ok());
    let mut f = plain();
    f.reduce = Some("rms".to_owned());
    f.format = Format::Ir;
    assert_eq!(
        refuse_scalar_only(&f).unwrap_err(),
        "--sweep/--reduce operate on the scalar Probe only; use --nvoices 0"
    );
    let mut f = plain();
    f.format = Format::Ir;
    assert_eq!(
        refuse_scalar_only(&f).unwrap_err(),
        "--format ir is scoped to the scalar impulse-test protocol"
    );
    let mut f = plain();
    f.bra_tape = 4096;
    assert_eq!(
        refuse_scalar_only(&f).unwrap_err(),
        "the compiler options (-pn, -vec, -ss, -mcd, -dlt, -ct, -table-init, --bra-tape) reach the scalar Probe only; use --nvoices 0"
    );
    let mut f = plain();
    f.evals = strings(&["x"]);
    f.freqresp = Some("20:20000".to_owned());
    assert_eq!(
        refuse_scalar_only(&f).unwrap_err(),
        "--eval operates on the scalar Probe only; use --nvoices 0"
    );
}

use faustprobe::engine::{
    check_c_text, compile_failure, compiler_argv, failure_report, failure_text, next_block,
    Factory, PolyTarget, Probe,
};

fn strings(v: &[&str]) -> Vec<String> {
    v.iter().map(|s| (*s).to_owned()).collect()
}

#[test]
fn a_stale_complete_text_is_not_attributed_to_another_failure() {
    // The complete text survives a success and any failure that does not
    // report through the error buffer, so it may be stale: it is used only
    // when it extends the summary of the failure at hand.
    let stale = "1 error\nf.dsp:1:20: error FRS-PARSE-0001 unexpected token\n";
    assert_eq!(failure_text("some other failure", Some(stale)), "some other failure");
    // A failure that wrote nothing to its buffer: every text extends the
    // empty one, and none of them is about this failure.
    assert_eq!(failure_text("", Some(stale)), "");
}

#[test]
fn the_complete_text_is_taken_when_it_extends_the_summary() {
    let complete = "1 error\nf.dsp:1:20: error FRS-PARSE-0001\n\n  ";
    assert_eq!(
        failure_text("1 error", Some(complete)),
        "1 error\nf.dsp:1:20: error FRS-PARSE-0001"
    );
    assert_eq!(failure_text("1 error", None), "1 error");
    let failure = compile_failure("1 error", Some(complete), Some("{\"code\":1}"));
    assert_eq!(failure.text, "1 error\nf.dsp:1:20: error FRS-PARSE-0001");
    assert_eq!(failure.diagnostics_json.as_deref(), Some("{\"code\":1}"));
    assert_eq!(compile_failure("x", None, None).diagnostics_json, None);
}

#[test]
fn the_argv_has_the_imports_the_width_and_the_extras_in_order() {
    let argv = compiler_argv(&strings(&["lib", "more"]), &strings(&["-mcd", "64"]), true).unwrap();
    assert_eq!(argv, ["-I", "lib", "-I", "more", "-double", "-mcd", "64"]);
    assert!(compiler_argv(&[], &[], false).unwrap().is_empty());
}

#[test]
fn an_argument_with_a_nul_byte_is_refused_at_its_byte() {
    assert_eq!(
        compiler_argv(&strings(&["ok", "bé\0d"]), &[], false).unwrap_err(),
        "nul byte found in provided data at position: 3"
    );
    assert_eq!(
        check_c_text("a\0b").unwrap_err(),
        "nul byte found in provided data at position: 1"
    );
    assert!(check_c_text("plain").is_ok());
}

#[test]
fn an_instance_takes_its_width_from_the_factory() {
    let factory = Factory::compiled(true);
    assert!(factory.is_double());
    let probe = Probe::instantiated(&factory, 48_000, 2, 3).unwrap();
    assert_eq!(probe.inputs(), 2);
    assert_eq!(probe.outputs(), 3);
    assert_eq!(probe.sample_rate(), 48_000);
    assert!(probe.is_double());
    assert!(!Probe::instantiated(&Factory::compiled(false), 44_100, 0, 1).unwrap().is_double());
}

#[test]
fn a_negative_arity_is_refused() {
    let factory = Factory::compiled(false);
    assert_eq!(
        Probe::instantiated(&factory, 44_100, -1, -1).unwrap_err(),
        "negative input arity"
    );
    assert_eq!(
        Probe::instantiated(&factory, 44_100, 1, -1).unwrap_err(),
        "negative output arity"
    );
}

#[test]
fn a_block_ends_on_the_next_event_and_on_the_render() {
    assert_eq!(next_block(None, 64, 1000, 0), 64);
    assert_eq!(next_block(None, 64, 1000, 960), 40);
    assert_eq!(next_block(Some(100), 64, 1000, 64), 36);
    assert_eq!(next_block(Some(100), 64, 1000, 0), 64);
    // an event due here has already been applied
    assert_eq!(next_block(Some(64), 64, 1000, 64), 64);
    assert_eq!(next_block(Some(10), 64, 1000, 64), 64);
}

#[test]
fn a_broadcast_names_where_it_lands() {
    assert_eq!(PolyTarget::Voices.place(), "on every voice");
    assert_eq!(PolyTarget::Effect.place(), "on the effect");
}

#[test]
fn a_json_report_is_printed_only_for_the_failure_it_describes() {
    let failure = compile_failure("1 error", Some("1 error\r\nf.dsp:1:1: error X\n"), Some("{}"));
    let error = "1 error\r\nf.dsp:1:1: error X".to_owned();
    assert_eq!(
        failure_report(&error, true, Some(&failure)),
        (Some("{}".to_owned()), "1 error".to_owned())
    );
    assert_eq!(failure_report(&error, false, Some(&failure)), (None, error.clone()));
    assert_eq!(failure_report("other", true, Some(&failure)), (None, "other".to_owned()));
    assert_eq!(failure_report(&error, true, None), (None, error.clone()));
    let no_report = compile_failure("1 error", None, None);
    assert_eq!(failure_report(&error, true, Some(&no_report)), (None, error));
}

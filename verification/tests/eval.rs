use faustprobe::eval::{csv_field, EvalProgram};

fn program(file: &str, exprs: &[&str]) -> EvalProgram {
    let exprs: Vec<String> = exprs.iter().map(|e| (*e).to_owned()).collect();
    EvalProgram::new(file, &exprs).unwrap()
}

#[test]
fn the_file_keeps_its_line_numbers_and_each_expression_has_its_own_line() {
    let file = "// a library\ngain = 0.5;\nhalf(x) = x * gain;\n\n\n";
    let wrapped = program(file, &["half(3)", "gain"]);
    let source = wrapped.source();
    let lines: Vec<&str> = source.lines().collect();
    // line 1 carries the opener and the file's first line; 2 and 3 are the file's
    assert!(
        lines[0].ends_with("environment{ // a library"),
        "{}",
        lines[0]
    );
    assert_eq!(lines[1], "gain = 0.5;");
    assert_eq!(lines[2], "half(x) = x * gain;");
    // an expression is alone on its line, where `expr_line` says (1-based)
    assert_eq!(lines[wrapped.expr_line(0) - 1], "half(3)");
    assert_eq!(lines[wrapped.expr_line(1) - 1], "gain");
    assert_eq!(wrapped.expr_line(0), 5);
    assert_eq!(wrapped.expr_line(1), 8);
    assert!(source.ends_with(
        "process = __faustprobe_env.__faustprobe_eval0, __faustprobe_env.__faustprobe_eval1;\n"
    ));
}

#[test]
fn an_expression_is_flattened_and_loses_its_terminator() {
    let wrapped = program("x = 1;", &["  x +\n 2 ; "]);
    assert_eq!(wrapped.exprs(), ["x +  2"]);
    assert!(EvalProgram::new("x = 1;", &[" ; ".to_owned()]).is_err());
    assert!(EvalProgram::new("x = 1;", &[]).is_err());
}

#[test]
fn labels_follow_the_arities() {
    let wrapped = program("", &["a", "m(2)", "b"]);
    assert_eq!(
        wrapped.labels(&[1, 4, 1], 6).unwrap(),
        ["a", "m(2)[0]", "m(2)[1]", "m(2)[2]", "m(2)[3]", "b"]
    );
    // an expression with no output owns no column
    assert_eq!(wrapped.labels(&[1, 0, 1], 2).unwrap(), ["a", "b"]);
    assert!(wrapped.labels(&[1, 4, 1], 5).is_err());
    assert!(wrapped.labels(&[1, 1], 2).is_err());
}

#[test]
fn an_error_in_an_expression_is_located_in_it() {
    let wrapped = program("// lib\ngain = 0.5;", &["gain", "quarter(3)"]);
    let line = wrapped.expr_line(1);
    let error = format!("evaluation failed\nf.lib:{line}:1: error undefined symbol `quarter`\n");
    let explained = wrapped.explain("f.lib", &error);
    assert!(
        explained.contains("<eval 1>:1:1: error undefined symbol"),
        "{explained}"
    );
    assert!(
        explained.contains("<eval 1> is `--eval 'quarter(3)'`"),
        "{explained}"
    );
    assert!(!explained.contains("<eval 0>"), "{explained}");

    // what an expression leaves open is reported on its terminator: its end
    let error = format!(
        "parse failed\nf.lib:{}:1: error unexpected token\n",
        wrapped.expr_line(0) + 1
    );
    let explained = wrapped.explain("f.lib", &error);
    assert!(
        explained.contains("<eval 0>:1:5: error unexpected token"),
        "{explained}"
    );

    // an error in the file is already at its line
    let error = "evaluation failed\nf.lib:2:8: error undefined symbol\n";
    assert_eq!(wrapped.explain("f.lib", error), error);
}

#[test]
fn an_unlocated_undefined_symbol_is_attributed_to_the_expressions_that_use_it() {
    // `tone` is local to a `with` block of the file: not in an expression's scope
    let wrapped = program(
        "process = tone with { tone = 1; };",
        &["gain * 2", "tone + tone_up"],
    );
    let error = "evaluation failed for f.dsp: undefined symbol `tone`\n\
                 f.dsp:1:1: error undefined symbol `tone`\n  1 | __faustprobe_env = environment{ process\n";
    let explained = wrapped.explain("f.dsp", error);
    assert!(
        explained.contains("`tone` is used by <eval 1>, `--eval 'tone + tone_up'`"),
        "{explained}"
    );
    assert!(
        explained.contains("not those local to a `with` block"),
        "{explained}"
    );
    // `tone_up` is another identifier, and <eval 0> does not use `tone`
    assert!(!explained.contains("<eval 0>"), "{explained}");
    assert!(
        explained.contains("are the wrapper `--eval` puts around the file"),
        "{explained}"
    );
}

#[test]
fn a_header_field_with_a_comma_is_quoted() {
    assert_eq!(csv_field("gain"), "gain");
    assert_eq!(csv_field("pole(1709, 2.0)"), "\"pole(1709, 2.0)\"");
    assert_eq!(csv_field("label(\"a\")"), "\"label(\"\"a\"\")\"");
}

#[test]
fn the_arity_source_shares_the_layout_of_the_source() {
    let wrapped = program("a = 1;\nb = 2;", &["a", "b"]);
    let source = wrapped.source();
    let arity = wrapped.arity_source();
    let s: Vec<&str> = source.lines().collect();
    let a: Vec<&str> = arity.lines().collect();
    assert_eq!(s[..s.len() - 1], a[..a.len() - 1]);
    assert!(arity.ends_with(
        "process = outputs(__faustprobe_env.__faustprobe_eval0), outputs(__faustprobe_env.__faustprobe_eval1);\n"
    ));
    assert_eq!(a[wrapped.expr_line(1) - 1], "b");
}

#[test]
fn an_empty_file_is_wrapped_on_one_line() {
    let wrapped = program("", &["1"]);
    assert_eq!(wrapped.expr_line(0), 3);
    let source = wrapped.source();
    let lines: Vec<&str> = source.lines().collect();
    assert_eq!(lines[0], "__faustprobe_env = environment{ ");
    assert_eq!(lines[1], "__faustprobe_eval0 =");
    assert_eq!(lines[2], "1");
    assert_eq!(lines[3], ";");
}

#[test]
fn mismatched_arities_are_refused_with_the_counts() {
    let wrapped = program("", &["a", "b"]);
    assert_eq!(
        wrapped.labels(&[1, 4], 6).unwrap_err(),
        "--eval: the expressions have [1, 4] outputs and the program 6"
    );
}

#[test]
fn a_quote_alone_is_quoted_and_doubled() {
    assert_eq!(csv_field("\""), "\"\"\"\"");
    assert_eq!(csv_field(""), "");
}

/// A field as an RFC 4180 reader reads it.
fn read_field(field: &str) -> String {
    if field.len() >= 2 && field.starts_with('"') {
        field[1..field.len() - 1].replace("\"\"", "\"")
    } else {
        field.to_owned()
    }
}

#[test]
fn a_header_field_is_read_back_as_its_label() {
    for label in ["gain", "pole(1709, 2.0)", "label(\"a\")", "\"", "a\"\"b", ""] {
        assert_eq!(read_field(&csv_field(label)), label);
    }
}

#[test]
fn the_arity_source_differs_only_after_its_last_process_line() {
    let p = program("f(x) = x;\nprocess = f;", &["f(1)", "f(2)"]);
    let s = p.source();
    let a = p.arity_source();
    let i = s.rfind("process = ").unwrap();
    assert_eq!(a.rfind("process = "), Some(i));
    assert_eq!(a[..i], s[..i]);
    assert_eq!(
        &a[i..],
        "process = outputs(__faustprobe_env.__faustprobe_eval0), outputs(__faustprobe_env.__faustprobe_eval1);\n"
    );
}

#[test]
fn a_diagnostic_about_the_file_comes_back_unchanged() {
    let p = program("// lib\ngain = 0.5;", &["gain", "quarter(3)"]);
    let error = "evaluation failed\nf.lib:2:8: error undefined symbol\n";
    assert_eq!(p.explain("f.lib", error), error);
    let other = "f.lib:2:1: undefined symbol `half` in the file\n";
    assert_eq!(p.explain("f.lib", other), other);
}

//! What the probe decides around the JIT: the compiler's `argv`, the text of
//! a failed compilation, the shape of an instance, where a render's blocks
//! end, and where a polyphonic write lands.
//!
//! The factory and the instances themselves live behind the JIT's C API; the
//! library holds what it reads of them as plain values.

use vstd::prelude::*;
use vstd::utf8::encode_utf8;
use crate::text::{
    chars_of, contains, contains_chars, decimal, find_chars, find_from, owned, push_chars,
    push_decimal, push_str, string_of, trim_end, trim_end_chars,
};

verus! {

// ---------------------------------------------------------------- argv ----

/// The index of the first zero byte of `b` at or after `i`.
pub open spec fn first_zero_from(b: Seq<u8>, i: nat) -> Option<nat>
    decreases b.len() - i,
{
    if i >= b.len() {
        None
    } else if b[i as int] == 0 {
        Some(i)
    } else {
        first_zero_from(b, i + 1)
    }
}

/// Where the first NUL byte of the UTF-8 text of `s` is, if it has one.
pub open spec fn nul_position(s: Seq<char>) -> Option<nat> {
    first_zero_from(encode_utf8(s), 0)
}

/// What refuses a text with a NUL byte as a C string, as the standard
/// library words it.
pub open spec fn nul_message(position: nat) -> Seq<char> {
    "nul byte found in provided data at position: "@ + decimal(position)
}

/// Whether `s` can be handed to the compiler as a C string.
///
/// # Errors
/// The byte position of its first NUL.
pub fn check_c_text(s: &str) -> (r: Result<(), String>)
    ensures
        match nul_position(s@) {
            None => r is Ok,
            Some(p) => r is Err && r->Err_0@ == nul_message(p),
        },
{
    let b = s.as_bytes();
    let mut i: usize = 0;
    while i < b.len()
        invariant
            i <= b.len(),
            b@ == encode_utf8(s@),
            first_zero_from(b@, 0) == first_zero_from(b@, i as nat),
        decreases b.len() - i,
    {
        if b[i] == 0 {
            let mut v: Vec<char> = Vec::new();
            push_str(&mut v, "nul byte found in provided data at position: ");
            push_decimal(&mut v, i);
            return Err(string_of(&v));
        }
        i = i + 1;
    }
    Ok(())
}

/// The `-I DIR` pairs of some import directories, in order.
pub open spec fn import_items(dirs: Seq<Seq<char>>) -> Seq<Seq<char>>
    decreases dirs.len(),
{
    if dirs.len() == 0 {
        Seq::empty()
    } else {
        import_items(dirs.drop_last()) + seq!["-I"@, dirs.last()]
    }
}

/// The compiler's arguments: `-I DIR` per import directory, `-double` for
/// double-precision samples, then the extra arguments verbatim.
pub open spec fn argv_items(dirs: Seq<Seq<char>>, extras: Seq<Seq<char>>, double: bool) -> Seq<Seq<char>> {
    import_items(dirs) + (if double { seq!["-double"@] } else { Seq::empty() }) + extras
}

/// The NUL position of the first of `items` from `i` on that holds one.
pub open spec fn first_nul_from(items: Seq<Seq<char>>, i: nat) -> Option<nat>
    decreases items.len() - i,
{
    if i >= items.len() {
        None
    } else {
        match nul_position(items[i as int]) {
            Some(p) => Some(p),
            None => first_nul_from(items, i + 1),
        }
    }
}

/// What building the compiler's `argv` gives: the first NUL refused, else
/// a count that a C `int` holds, else the arguments.
pub open spec fn spec_compiler_argv(dirs: Seq<Seq<char>>, extras: Seq<Seq<char>>, double: bool) -> Result<Seq<Seq<char>>, Seq<char>> {
    let items = argv_items(dirs, extras, double);
    match first_nul_from(items, 0) {
        Some(p) => Err(nul_message(p)),
        None => if items.len() > i32::MAX {
            Err("too many -I arguments"@)
        } else {
            Ok(items)
        },
    }
}

/// The views of some strings.
pub open spec fn string_views(v: Seq<String>) -> Seq<Seq<char>> {
    v.map_values(|s: String| s@)
}

/// The arguments, before any is checked.
fn argv_strings(import_dirs: &[String], extra_args: &[String], double: bool) -> (argv: Vec<String>)
    ensures
        string_views(argv@) == argv_items(string_views(import_dirs@), string_views(extra_args@), double),
{
    let ghost dirs = string_views(import_dirs@);
    let ghost extras = string_views(extra_args@);
    let mut argv: Vec<String> = Vec::new();
    let mut i: usize = 0;
    while i < import_dirs.len()
        invariant
            i <= import_dirs.len(),
            dirs == string_views(import_dirs@),
            string_views(argv@) == import_items(dirs.take(i as int)),
        decreases import_dirs.len() - i,
    {
        let ghost before = string_views(argv@);
        assert(dirs.take(i + 1).drop_last() == dirs.take(i as int));
        argv.push(owned("-I"));
        argv.push(import_dirs[i].clone());
        assert(string_views(argv@) =~= before + seq!["-I"@, dirs[i as int]]);
        i = i + 1;
    }
    assert(dirs.take(i as int) == dirs);
    let ghost head = string_views(argv@);
    if double {
        argv.push(owned("-double"));
    }
    assert(string_views(argv@) =~= head + (if double { seq!["-double"@] } else { Seq::<Seq<char>>::empty() }));
    let ghost mid = string_views(argv@);
    let mut j: usize = 0;
    while j < extra_args.len()
        invariant
            j <= extra_args.len(),
            extras == string_views(extra_args@),
            string_views(argv@) == mid + extras.take(j as int),
        decreases extra_args.len() - j,
    {
        let ghost before = string_views(argv@);
        argv.push(extra_args[j].clone());
        assert(string_views(argv@) =~= before.push(extras[j as int]));
        assert(extras.take(j + 1) == extras.take(j as int).push(extras[j as int]));
        j = j + 1;
    }
    assert(extras.take(j as int) == extras);
    argv
}

/// The compiler's `argv`: `-I DIR` for each import directory, `-double` when
/// the samples are double precision, then the extra arguments verbatim.
///
/// # Errors
/// The first argument with a NUL byte, which no C string holds, or more
/// arguments than a C `int` counts.
pub fn compiler_argv(import_dirs: &[String], extra_args: &[String], double: bool) -> (r: Result<Vec<String>, String>)
    ensures
        match spec_compiler_argv(string_views(import_dirs@), string_views(extra_args@), double) {
            Ok(items) => r is Ok && string_views(r->Ok_0@) == items,
            Err(e) => r is Err && r->Err_0@ == e,
        },
{
    let argv = argv_strings(import_dirs, extra_args, double);
    let ghost items = string_views(argv@);
    let mut i: usize = 0;
    while i < argv.len()
        invariant
            i <= argv.len(),
            items == string_views(argv@),
            items == argv_items(string_views(import_dirs@), string_views(extra_args@), double),
            first_nul_from(items, 0) == first_nul_from(items, i as nat),
        decreases argv.len() - i,
    {
        assert(items[i as int] == argv@[i as int]@);
        match check_c_text(argv[i].as_str()) {
            Ok(()) => {},
            Err(e) => {
                return Err(e);
            },
        }
        i = i + 1;
    }
    if argv.len() > 2147483647 {
        return Err(owned("too many -I arguments"));
    }
    Ok(argv)
}

// ------------------------------------------------------- compilation ----

/// Whether `s` begins with `p`.
pub open spec fn starts_with(s: Seq<char>, p: Seq<char>) -> bool {
    p.len() <= s.len() && s.take(p.len() as int) == p
}

/// The text of a failed compilation: the complete text of the compiler
/// (its rendered diagnostics) when it extends the one-line summary this
/// failure wrote, without its trailing whitespace; the summary otherwise.
/// An empty summary is extended by every text, and none of them is about
/// this failure.
pub open spec fn spec_compile_error(summary: Seq<char>, complete: Option<Seq<char>>) -> Seq<char> {
    match complete {
        None => summary,
        Some(c) => if summary.len() > 0 && starts_with(c, summary) {
            trim_end(c)
        } else {
            summary
        },
    }
}

/// The view of an optional text.
pub open spec fn opt_view(o: Option<&str>) -> Option<Seq<char>> {
    match o {
        Some(t) => Some(t@),
        None => None,
    }
}

/// Whether `s` begins with `p`.
fn starts_with_chars(s: &[char], p: &[char]) -> (b: bool)
    ensures
        b == starts_with(s@, p@),
{
    if p.len() > s.len() {
        return false;
    }
    let mut i: usize = 0;
    while i < p.len()
        invariant
            i <= p.len(),
            p.len() <= s.len(),
            forall|j: int| 0 <= j < i ==> s@[j] == p@[j],
        decreases p.len() - i,
    {
        if s[i] != p[i] {
            assert(s@.take(p.len() as int)[i as int] != p@[i as int]);
            return false;
        }
        i = i + 1;
    }
    assert(s@.take(p.len() as int) =~= p@);
    true
}

/// The text a failed compilation is reported with, from the summary its
/// error buffer received and the compiler's complete text, when it has one.
pub fn failure_text(summary: &str, complete: Option<&str>) -> (r: String)
    ensures
        r@ == spec_compile_error(summary@, opt_view(complete)),
{
    match complete {
        None => owned(summary),
        Some(c) => {
            let s = chars_of(summary);
            let t = chars_of(c);
            if s.len() > 0 && starts_with_chars(&t, &s) {
                let trimmed = trim_end_chars(&t);
                string_of(&trimmed)
            } else {
                owned(summary)
            }
        },
    }
}

/// A factory creation that failed: the text the caller was given and the
/// compiler's diagnostics-v2 JSON report of the same failure, when it had
/// typed diagnostics.
#[derive(Debug, Clone, PartialEq, Eq)]
pub struct CompileFailure {
    /// What the compilation returned as its error.
    pub text: String,
    /// Code, ranges, facts and machine-applicable fixes, as one JSON document.
    pub diagnostics_json: Option<String>,
}

/// The record of a failed compilation: its text, as [`failure_text`] words
/// it, and the compiler's JSON report when it gave one.
pub fn compile_failure(summary: &str, complete: Option<&str>, report: Option<&str>) -> (r: CompileFailure)
    ensures
        r.text@ == spec_compile_error(summary@, opt_view(complete)),
        report is None ==> r.diagnostics_json is None,
        report matches Some(j) ==> r.diagnostics_json is Some && r.diagnostics_json->Some_0@ == j@,
{
    let text = failure_text(summary, complete);
    let diagnostics_json = match report {
        Some(j) => Some(owned(j)),
        None => None,
    };
    CompileFailure { text, diagnostics_json }
}

/// The first line of `s`, as `str::lines` gives it: up to the first line
/// feed, without the carriage return before it; all of `s` when it has no
/// line feed.
pub open spec fn first_line(s: Seq<char>) -> Seq<char> {
    match find_from(s, seq!['\n'], 0) {
        Some(p) => if p > 0 && s[p - 1] == '\r' {
            s.take(p - 1)
        } else {
            s.take(p)
        },
        None => s,
    }
}

/// What a run that ends on `error` reports when it failed to compile: under
/// `--error-format json` (`json`), when the last compile failure has a JSON
/// report and `error` holds its text, the report for stdout and the first
/// line of the error for stderr; otherwise nothing for stdout and the error
/// as it is.
pub open spec fn spec_failure_report(error: Seq<char>, json: bool, last: Option<(Seq<char>, Option<Seq<char>>)>) -> (Option<Seq<char>>, Seq<char>) {
    if !json {
        (None, error)
    } else {
        match last {
            None => (None, error),
            Some((text, report)) => match report {
                Some(r) => if contains(error, text) {
                    (Some(r), first_line(error))
                } else {
                    (None, error)
                },
                None => (None, error),
            },
        }
    }
}

/// A failure record as texts.
pub open spec fn failure_view(f: Option<&CompileFailure>) -> Option<(Seq<char>, Option<Seq<char>>)> {
    match f {
        Some(c) => Some(
            (
                c.text@,
                match c.diagnostics_json {
                    Some(j) => Some(j@),
                    None => None,
                },
            ),
        ),
        None => None,
    }
}

/// The first line of `s`.
fn first_line_chars(s: &[char]) -> (r: Vec<char>)
    ensures
        r@ == first_line(s@),
{
    let nl: Vec<char> = vec!['\n'];
    assert(nl@ =~= seq!['\n']);
    proof {
        crate::text::lemma_find_from(s@, nl@, 0);
    }
    let found = find_chars(s, &nl, 0);
    let n = s.len();
    match found {
        Some(p) => {
            assert(find_from(s@, nl@, 0)->Some_0 + 1 <= n);
            assert(find_from(s@, nl@, 0) == Some(p as int));
            let end = if p > 0 && s[p - 1] == '\r' { p - 1 } else { p };
            let mut out: Vec<char> = Vec::new();
            let mut i: usize = 0;
            while i < end
                invariant
                    i <= end,
                    end <= s@.len(),
                    out@ == s@.take(i as int),
                decreases end - i,
            {
                out.push(s[i]);
                i = i + 1;
                assert(out@ =~= s@.take(i as int));
            }
            out
        },
        None => {
            let mut out: Vec<char> = Vec::new();
            push_chars(&mut out, s);
            assert(out@ =~= s@);
            out
        },
    }
}

/// What a run that ends on `error` reports of a compile failure: the JSON
/// report to print on stdout, if any, and the text for stderr. `json` is
/// `--error-format json`, `last` the last compile failure of the thread.
pub fn failure_report(error: &str, json: bool, last: Option<&CompileFailure>) -> (r: (Option<String>, String))
    ensures
        ({
            let (out, err) = spec_failure_report(error@, json, failure_view(last));
            &&& r.1@ == err
            &&& match out {
                Some(o) => r.0 is Some && r.0->Some_0@ == o,
                None => r.0 is None,
            }
        }),
{
    if !json {
        return (None, owned(error));
    }
    match last {
        None => (None, owned(error)),
        Some(failure) => match &failure.diagnostics_json {
            Some(report) => {
                let e = chars_of(error);
                let t = chars_of(failure.text.as_str());
                if contains_chars(&e, &t) {
                    let line = first_line_chars(&e);
                    (Some(report.clone()), string_of(&line))
                } else {
                    (None, owned(error))
                }
            },
            None => (None, owned(error)),
        },
    }
}

// ---------------------------------------------------- factory, probe ----

/// A compiled factory, as the library sees it: the sample width every
/// instance it makes was compiled for (`-double` is a compile-time argument,
/// fixed for all of them).
#[derive(Debug, Clone, Copy, PartialEq, Eq, Structural)]
pub struct Factory {
    double: bool,
}

impl Factory {
    /// Whether instances are compiled for double-precision samples.
    pub closed spec fn spec_double(self) -> bool {
        self.double
    }

    /// The factory compiled at the width `double` asks for.
    pub closed spec fn spec_compiled(double: bool) -> Factory {
        Factory { double }
    }

    /// The factory the JIT compiled, at the width it was asked for.
    pub fn compiled(double: bool) -> (f: Factory)
        ensures
            f == Factory::spec_compiled(double),
            f.spec_double() == double,
    {
        Factory { double }
    }

    /// Whether instances from this factory were compiled for
    /// double-precision samples.
    pub fn is_double(&self) -> (b: bool)
        ensures
            b == self.spec_double(),
    {
        self.double
    }
}

/// One instance of a compiled program, as the library sees it: its numbers
/// of inputs and outputs, its sample rate and its sample width.
#[derive(Debug, Clone, Copy, PartialEq, Eq, Structural)]
pub struct Probe {
    inputs: usize,
    outputs: usize,
    sample_rate: i32,
    double: bool,
}

/// Why an instance that reports a negative arity is refused.
pub open spec fn spec_arity_error(inputs: i32, outputs: i32) -> Option<Seq<char>> {
    if inputs < 0 {
        Some("negative input arity"@)
    } else if outputs < 0 {
        Some("negative output arity"@)
    } else {
        None
    }
}

impl Probe {
    /// The number of audio inputs.
    pub closed spec fn spec_inputs(self) -> nat {
        self.inputs as nat
    }

    /// The number of audio outputs.
    pub closed spec fn spec_outputs(self) -> nat {
        self.outputs as nat
    }

    /// The sample rate the instance was initialised with.
    pub closed spec fn spec_sample_rate(self) -> i32 {
        self.sample_rate
    }

    /// Whether the instance computes in double precision.
    pub closed spec fn spec_double(self) -> bool {
        self.double
    }

    /// The instance of `factory` initialised at `sample_rate` that reports
    /// these arities.
    pub closed spec fn spec_instance(factory: Factory, sample_rate: i32, inputs: usize, outputs: usize) -> Probe {
        Probe { inputs, outputs, sample_rate, double: factory.double }
    }

    /// An instance of `factory` initialised at `sample_rate`, from the
    /// arities it reports.
    ///
    /// # Errors
    /// A negative number of inputs, then of outputs.
    pub fn instantiated(factory: &Factory, sample_rate: i32, inputs: i32, outputs: i32) -> (r: Result<Probe, String>)
        ensures
            match spec_arity_error(inputs, outputs) {
                Some(e) => r is Err && r->Err_0@ == e,
                None => r is Ok && r->Ok_0 == Probe::spec_instance(*factory, sample_rate, inputs as usize, outputs as usize)
                    && r->Ok_0.spec_inputs() == inputs as nat && r->Ok_0.spec_outputs()
                    == outputs as nat && r->Ok_0.spec_sample_rate() == sample_rate
                    && r->Ok_0.spec_double() == factory.spec_double(),
            },
    {
        if inputs < 0 {
            return Err(owned("negative input arity"));
        }
        if outputs < 0 {
            return Err(owned("negative output arity"));
        }
        Ok(Probe {
            inputs: inputs as usize,
            outputs: outputs as usize,
            sample_rate,
            double: factory.double,
        })
    }

    /// Number of audio inputs.
    pub fn inputs(&self) -> (n: usize)
        ensures
            n as nat == self.spec_inputs(),
    {
        self.inputs
    }

    /// Number of audio outputs.
    pub fn outputs(&self) -> (n: usize)
        ensures
            n as nat == self.spec_outputs(),
    {
        self.outputs
    }

    /// Whether the DSP was compiled for double-precision samples.
    pub fn is_double(&self) -> (b: bool)
        ensures
            b == self.spec_double(),
    {
        self.double
    }

    /// Sample rate the instance was initialised with.
    pub fn sample_rate(&self) -> (r: i32)
        ensures
            r == self.spec_sample_rate(),
    {
        self.sample_rate
    }
}

/// The sample width is a compile-time argument, shared by the factory and
/// every instance it makes, and an instance keeps the sample rate it was
/// initialised at: a `Probe` has no method that changes either.
pub proof fn lemma_instance_width(double: bool, sample_rate: i32, inputs: usize, outputs: usize)
    ensures
        Factory::spec_compiled(double).spec_double() == double,
        Probe::spec_instance(Factory::spec_compiled(double), sample_rate, inputs, outputs).spec_double() == double,
        Probe::spec_instance(Factory::spec_compiled(double), sample_rate, inputs, outputs).spec_sample_rate()
            == sample_rate,
        Probe::spec_instance(Factory::spec_compiled(double), sample_rate, inputs, outputs).spec_inputs()
            == inputs as nat,
        Probe::spec_instance(Factory::spec_compiled(double), sample_rate, inputs, outputs).spec_outputs()
            == outputs as nat,
{
}

// ------------------------------------------------------------ blocks ----

/// The length of the block that starts at `written`: `block` frames, fewer
/// at the end of the render, and fewer again so that the next scheduled
/// event, at `next_event`, lands on a block boundary.
pub open spec fn spec_next_block(next_event: Option<usize>, block: nat, frames: nat, written: nat) -> nat {
    let left = (frames - written) as nat;
    let n = if block < left { block } else { left };
    match next_event {
        Some(next) => if next > written && ((next - written) as nat) < n {
            (next - written) as nat
        } else {
            n
        },
        None => n,
    }
}

/// The length of the block that starts at `written`: `block` frames, fewer
/// at the end of the render, and fewer again so that the next scheduled
/// event (`next_event`, the schedule's first frame after `written`) lands on
/// a block boundary, which is what makes its timing sample-exact rather than
/// rounded to the block grid.
pub fn next_block(next_event: Option<usize>, block: usize, frames: usize, written: usize) -> (n: usize)
    requires
        written <= frames,
    ensures
        n as nat == spec_next_block(next_event, block as nat, frames as nat, written as nat),
        written + n <= frames,
        n <= block,
        block > 0 && written < frames && (next_event matches Some(t) ==> t != written) ==> n > 0,
        next_event is Some && next_event->Some_0 > written ==> written + n <= next_event->Some_0,
{
    let left = frames - written;
    let mut n = if block < left { block } else { left };
    if let Some(next) = next_event {
        if next > written && next - written < n {
            n = next - written;
        }
    }
    n
}

// ---------------------------------------------------------- polyphony ----

/// Where a broadcast write lands in a polyphonic instrument.
#[derive(Debug, Clone, Copy, PartialEq, Eq, Structural)]
pub enum PolyTarget {
    /// The control of that path on every voice.
    Voices,
    /// A control of the effect the voices' mix runs through.
    Effect,
}

/// `on every voice` or `on the effect`.
pub open spec fn spec_place(t: PolyTarget) -> Seq<char> {
    match t {
        PolyTarget::Voices => "on every voice"@,
        PolyTarget::Effect => "on the effect"@,
    }
}

impl PolyTarget {
    /// `on every voice` or `on the effect`, for a message.
    pub fn place(self) -> (r: &'static str)
        ensures
            r@ == spec_place(self),
    {
        match self {
            PolyTarget::Voices => "on every voice",
            PolyTarget::Effect => "on the effect",
        }
    }
}

} // verus!

//! `--eval EXPR`: an expression evaluated in a file's scope, without a file
//! written for it.
//!
//! The expressions are added *inside* an environment wrapped around the
//! file, so each is evaluated in the file's own scope:
//!
//! ```text
//! __faustprobe_env = environment{ <line 1 of the file>
//! <the rest of the file>
//! __faustprobe_eval0 =
//! EXPR0
//! ;
//! };
//! process = __faustprobe_env.__faustprobe_eval0;
//! ```
//!
//! Two properties of this layout matter: the file keeps its line numbers
//! (the opener shares the file's first line), and an expression is alone on
//! its line, starting in column 1, so that [`EvalProgram::explain`] can
//! rename a diagnostic's location `<eval k>`.

use vstd::prelude::*;
use crate::lines::{lemma_lines_append, lemma_lines_newline, lemma_lines_nonempty, lemma_lines_plain, lemma_lines_prepend, lines_of, no_newline};
use crate::text::{
    is_ascii_digit,
    chars_of, contains_chars, digit_char, find_chars, join_chars, matches_at, occurs_at, replace, replace_chars, replace_from, push_chars, push_decimal, push_str, contains, decimal, find_from, is_whitespace, join, owned, string_of, trim,
    trim_end, trim_end_char, trim_end_char_chars, trim_end_chars, trim_start, trim_start_chars,
};

verus! {

/// An expression as it is wrapped: its line breaks turned to spaces, then
/// trimmed, stripped of trailing `;`s and trimmed again.
pub open spec fn flat_expr(e: Seq<char>) -> Seq<char> {
    trim_end(trim_end_char(trim(flatten(e)), ';'))
}

/// `e` with each `\n` and `\r` turned into a space.
pub open spec fn flatten(e: Seq<char>) -> Seq<char> {
    e.map_values(|c: char| if c == '\n' || c == '\r' { ' ' } else { c })
}

/// How many times `c` occurs in `s`.
pub open spec fn count_char(s: Seq<char>, c: char) -> nat
    decreases s.len(),
{
    if s.len() == 0 {
        0
    } else {
        count_char(s.drop_last(), c) + if s.last() == c {
            1nat
        } else {
            0nat
        }
    }
}

/// The number of lines `str::lines` finds in `s`: one per `\n`, and one more
/// for a last line that no `\n` ends.
pub open spec fn line_count(s: Seq<char>) -> nat {
    count_char(s, '\n') + if s.len() > 0 && s.last() != '\n' {
        1nat
    } else {
        0nat
    }
}

/// The lines of the file as wrapped: at least one, the opener's.
pub open spec fn wrapped_file_lines(file: Seq<char>) -> nat {
    if line_count(file) == 0 {
        1
    } else {
        line_count(file)
    }
}

/// What opens the environment, on the file's first line.
pub open spec fn opener() -> Seq<char> {
    "__faustprobe_env = environment{ "@
}

/// The definition that holds expression `k`: its name, the expression alone
/// on the next line, and the terminator alone on the line after.
pub open spec fn expr_block(k: nat, e: Seq<char>) -> Seq<char> {
    "__faustprobe_eval"@ + decimal(k) + " =\n"@ + e + "\n;\n"@
}

/// The definitions of the first `n` expressions.
pub open spec fn expr_blocks(exprs: Seq<Seq<char>>, n: nat) -> Seq<char>
    decreases n,
{
    if n == 0 {
        Seq::empty()
    } else {
        expr_blocks(exprs, (n - 1) as nat) + expr_block((n - 1) as nat, exprs[n - 1])
    }
}

/// The environment, up to and including its closing brace.
pub open spec fn environment(file: Seq<char>, exprs: Seq<Seq<char>>) -> Seq<char> {
    opener() + file + "\n"@ + expr_blocks(exprs, exprs.len()) + "};\n"@
}

/// How expression `k` is reached from outside the environment.
pub open spec fn member(k: nat) -> Seq<char> {
    "__faustprobe_env.__faustprobe_eval"@ + decimal(k)
}

/// The number of outputs of expression `k`.
pub open spec fn arity_member(k: nat) -> Seq<char> {
    "outputs("@ + member(k) + ")"@
}

/// The program whose outputs are the expressions', side by side.
pub open spec fn spec_source(file: Seq<char>, exprs: Seq<Seq<char>>) -> Seq<char> {
    environment(file, exprs) + "process = "@ + join(
        Seq::new(exprs.len(), |k: int| member(k as nat)),
        ", "@,
    ) + ";\n"@
}

/// The program whose outputs are the expressions' numbers of outputs.
pub open spec fn spec_arity_source(file: Seq<char>, exprs: Seq<Seq<char>>) -> Seq<char> {
    environment(file, exprs) + "process = "@ + join(
        Seq::new(exprs.len(), |k: int| arity_member(k as nat)),
        ", "@,
    ) + ";\n"@
}

/// The views of some strings.
pub open spec fn views(v: Seq<String>) -> Seq<Seq<char>> {
    v.map_values(|s: String| s@)
}

/// A file wrapped for the evaluation of some expressions.
#[derive(Debug, Clone, PartialEq, Eq)]
pub struct EvalProgram {
    /// The expressions, as typed but for a trailing `;` and line breaks.
    exprs: Vec<String>,
    /// The file's text, without its trailing whitespace.
    file: String,
}

impl EvalProgram {
    /// The expressions, in order.
    pub closed spec fn expressions(&self) -> Seq<Seq<char>> {
        views(self.exprs@)
    }

    /// The file's text, as wrapped.
    pub closed spec fn file_text(&self) -> Seq<char> {
        self.file@
    }

    /// At least one expression, none of them empty or holding a line break,
    /// and a file that does not end with whitespace.
    pub closed spec fn well_formed(&self) -> bool {
        &&& self.exprs@.len() > 0
        &&& forall|k: int|
            0 <= k < self.exprs@.len() ==> #[trigger] single_line(self.exprs@[k]@)
        &&& trim_end(self.file@) == self.file@
    }

    /// Wraps `file` for the evaluation of `exprs`.
    ///
    /// # Errors
    /// An empty expression, or no expression at all.
    pub fn new(file: &str, exprs: &[String]) -> (r: Result<Self, String>)
        ensures
            exprs@.len() == 0 ==> r is Err && r->Err_0@ == "--eval needs an expression"@,
            exprs@.len() > 0 && (exists|k: int|
                0 <= k < exprs@.len() && #[trigger] flat_expr(exprs@[k]@).len() == 0) ==> r is Err
                && r->Err_0@ == "--eval was given an empty expression"@,
            exprs@.len() > 0 && (forall|k: int|
                0 <= k < exprs@.len() ==> #[trigger] flat_expr(exprs@[k]@).len() > 0) ==> r is Ok
                && r->Ok_0.expressions() == views(exprs@).map_values(|e: Seq<char>| flat_expr(e))
                && r->Ok_0.file_text() == trim_end(file@),
            r matches Ok(p) ==> p.well_formed() && wrapped_file_lines(p.file_text()) <= file@.len() + 1,
    {
        if exprs.len() == 0 {
            return Err(owned("--eval needs an expression"));
        }
        let mut out: Vec<String> = Vec::new();
        let mut i: usize = 0;
        while i < exprs.len()
            invariant
                i <= exprs.len(),
                out@.len() == i,
                forall|k: int| 0 <= k < i ==> (#[trigger] out@[k])@ == flat_expr(exprs@[k]@),
                forall|k: int| 0 <= k < i ==> flat_expr(#[trigger] exprs@[k]@).len() > 0,
            decreases exprs.len() - i,
        {
            let flat = flat_one(exprs[i].as_str());
            if flat.len() == 0 {
                assert(flat_expr(exprs@[i as int]@).len() == 0);
                return Err(owned("--eval was given an empty expression"));
            }
            out.push(string_of(&flat));
            i = i + 1;
        }
        let file_chars = chars_of(file);
        let trimmed = trim_end_chars(&file_chars);
        proof {
            lemma_trim_end_idempotent(file@);
            lemma_wrapped_lines_bound(file@);
            assert forall|k: int| 0 <= k < out@.len() implies #[trigger] single_line(out@[k]@) by {
                lemma_flat_expr_single_line(exprs@[k]@);
            }
            assert(views(out@) == views(exprs@).map_values(|e: Seq<char>| flat_expr(e)));
        }
        Ok(EvalProgram { exprs: out, file: string_of(&trimmed) })
    }

    /// The expressions, in order.
    pub fn exprs(&self) -> (r: &[String])
        ensures
            views(r@) == self.expressions(),
    {
        self.exprs.as_slice()
    }

    /// Lines of the file as wrapped (at least one: the opener's).
    fn file_lines(&self) -> (n: usize)
        ensures
            n as nat == wrapped_file_lines(self.file_text()),
    {
        let chars = chars_of(self.file.as_str());
        let n = count_lines(&chars);
        if n == 0 {
            1
        } else {
            n
        }
    }

    /// The 1-based line of the wrapped source that holds expression `k`.
    /// The file is wrapped on at most one line more than it has characters
    /// (see [`EvalProgram::new`]), so the line fits whenever the file's
    /// length and `3 * k` leave a few values of `usize` over.
    pub fn expr_line(&self, k: usize) -> (line: usize)
        requires
            wrapped_file_lines(self.file_text()) + 3 * k + 2 <= usize::MAX,
        ensures
            line as nat == wrapped_file_lines(self.file_text()) + 3 * k + 2,
    {
        self.file_lines() + 3 * k + 2
    }
}

impl EvalProgram {
    /// The environment, up to and including its closing brace.
    fn environment(&self) -> (v: Vec<char>)
        ensures
            v@ == environment(self.file_text(), self.expressions()),
    {
        let ghost exprs = self.expressions();
        let mut v: Vec<char> = Vec::new();
        push_str(&mut v, "__faustprobe_env = environment{ ");
        let file = chars_of(self.file.as_str());
        push_chars(&mut v, &file);
        push_str(&mut v, "\n");
        let ghost head = v@;
        let mut k: usize = 0;
        while k < self.exprs.len()
            invariant
                k <= self.exprs.len(),
                exprs == self.expressions(),
                exprs.len() == self.exprs.len(),
                head == opener() + self.file_text() + "\n"@,
                v@ == head + expr_blocks(exprs, k as nat),
            decreases self.exprs.len() - k,
        {
            push_str(&mut v, "__faustprobe_eval");
            push_decimal(&mut v, k);
            push_str(&mut v, " =\n");
            let e = chars_of(self.exprs[k].as_str());
            push_chars(&mut v, &e);
            push_str(&mut v, "\n;\n");
            assert(exprs[k as int] == e@);
            assert(expr_blocks(exprs, (k + 1) as nat) == expr_blocks(exprs, k as nat) + expr_block(
                k as nat,
                exprs[k as int],
            ));
            k = k + 1;
        }
        push_str(&mut v, "};\n");
        v
    }

    /// The members named in `process`, joined by `, `: the expressions, or
    /// with `outputs` their numbers of outputs.
    fn process_members(&self, outputs: bool) -> (v: Vec<char>)
        ensures
            outputs ==> v@ == join(
                Seq::new(self.expressions().len(), |k: int| arity_member(k as nat)),
                ", "@,
            ),
            !outputs ==> v@ == join(
                Seq::new(self.expressions().len(), |k: int| member(k as nat)),
                ", "@,
            ),
    {
        let ghost n = self.expressions().len();
        let mut parts: Vec<Vec<char>> = Vec::new();
        let mut k: usize = 0;
        while k < self.exprs.len()
            invariant
                k <= self.exprs.len(),
                n == self.exprs.len(),
                parts@.len() == k,
                forall|j: int|
                    0 <= j < k ==> (#[trigger] parts@[j])@ == if outputs {
                        arity_member(j as nat)
                    } else {
                        member(j as nat)
                    },
            decreases self.exprs.len() - k,
        {
            let mut m: Vec<char> = Vec::new();
            if outputs {
                push_str(&mut m, "outputs(");
            }
            push_str(&mut m, "__faustprobe_env.__faustprobe_eval");
            push_decimal(&mut m, k);
            if outputs {
                push_str(&mut m, ")");
            }
            assert(m@ == if outputs {
                arity_member(k as nat)
            } else {
                member(k as nat)
            });
            parts.push(m);
            k = k + 1;
        }
        let sep = chars_of(", ");
        let v = join_chars(&parts, &sep);
        if outputs {
            assert(parts@.map_values(|v: Vec<char>| v@) == Seq::new(n, |k: int| arity_member(k as nat)));
        } else {
            assert(parts@.map_values(|v: Vec<char>| v@) == Seq::new(n, |k: int| member(k as nat)));
        }
        v
    }

    /// The program that computes the expressions, their outputs side by
    /// side in the order given.
    pub fn source(&self) -> (s: String)
        ensures
            s@ == spec_source(self.file_text(), self.expressions()),
    {
        let mut v = self.environment();
        push_str(&mut v, "process = ");
        let members = self.process_members(false);
        push_chars(&mut v, &members);
        push_str(&mut v, ";\n");
        string_of(&v)
    }

    /// The program whose outputs are the number of outputs of each
    /// expression, which attributes the columns of [`Self::source`] when
    /// there are several expressions.
    pub fn arity_source(&self) -> (s: String)
        ensures
            s@ == spec_arity_source(self.file_text(), self.expressions()),
    {
        let mut v = self.environment();
        push_str(&mut v, "process = ");
        let members = self.process_members(true);
        push_chars(&mut v, &members);
        push_str(&mut v, ";\n");
        string_of(&v)
    }
}

/// The sum of some counts.
pub open spec fn sum(a: Seq<usize>) -> nat
    decreases a.len(),
{
    if a.len() == 0 {
        0
    } else {
        sum(a.drop_last()) + a.last() as nat
    }
}

/// The labels of an expression with `arity` outputs: the expression itself
/// for one, `EXPR[j]` for each of several.
pub open spec fn expr_labels(e: Seq<char>, arity: nat) -> Seq<Seq<char>> {
    if arity == 1 {
        seq![e]
    } else {
        Seq::new(arity, |j: int| e + "["@ + decimal(j as nat) + "]"@)
    }
}

/// The labels of the outputs of the first `n` expressions.
pub open spec fn all_labels(exprs: Seq<Seq<char>>, arities: Seq<usize>, n: nat) -> Seq<Seq<char>>
    decreases n,
{
    if n == 0 {
        Seq::empty()
    } else {
        all_labels(exprs, arities, (n - 1) as nat) + expr_labels(exprs[n - 1], arities[n - 1] as nat)
    }
}

/// How `{:?}` writes a slice of counts: `[1, 4, 1]`.
pub open spec fn debug_counts(a: Seq<usize>) -> Seq<char> {
    "["@ + join(a.map_values(|x: usize| decimal(x as nat)), ", "@) + "]"@
}

/// Why the arities cannot attribute the columns.
pub open spec fn labels_error(arities: Seq<usize>, outputs: nat) -> Seq<char> {
    "--eval: the expressions have "@ + debug_counts(arities) + " outputs and the program "@
        + decimal(outputs)
}

/// One label per output: as many labels as the arities add up to.
pub proof fn lemma_labels_count(exprs: Seq<Seq<char>>, arities: Seq<usize>, n: nat)
    requires
        n <= arities.len(),
    ensures
        all_labels(exprs, arities, n).len() == sum(arities.take(n as int)),
    decreases n,
{
    if n > 0 {
        lemma_labels_count(exprs, arities, (n - 1) as nat);
        assert(arities.take(n as int).drop_last() =~= arities.take(n - 1));
        assert(arities.take(n as int).last() == arities[n - 1]);
    } else {
        assert(arities.take(0) =~= Seq::<usize>::empty());
    }
}

/// Each output column is labelled by the expression it comes from. The
/// outputs of expression `k` are the columns from `sum(arities[..k])` on,
/// one per output: its column `j` is labelled with the expression alone
/// when it has one output, and with the expression followed by `[j]` when
/// it has several.
pub proof fn lemma_labels_name_columns(exprs: Seq<Seq<char>>, arities: Seq<usize>, n: nat, k: int, j: int)
    requires
        n <= arities.len(),
        n <= exprs.len(),
        0 <= k < n,
        0 <= j < arities[k],
    ensures
        sum(arities.take(k)) + j < all_labels(exprs, arities, n).len(),
        arities[k] == 1 ==> all_labels(exprs, arities, n)[sum(arities.take(k)) + j] == exprs[k],
        arities[k] != 1 ==> all_labels(exprs, arities, n)[sum(arities.take(k)) + j] == exprs[k] + "["@
            + decimal(j as nat) + "]"@,
    decreases n,
{
    let m = (n - 1) as nat;
    lemma_labels_count(exprs, arities, m);
    lemma_labels_count(exprs, arities, n);
    assert(arities.take(n as int).drop_last() =~= arities.take(m as int));
    assert(arities.take(n as int).last() == arities[m as int]);
    if k < m {
        lemma_labels_name_columns(exprs, arities, m, k, j);
    } else {
        assert(k == m);
    }
}

/// A partial sum is at most the whole.
proof fn lemma_sum_prefix(a: Seq<usize>, i: int)
    requires
        0 <= i <= a.len(),
    ensures
        sum(a.take(i)) <= sum(a),
    decreases a.len(),
{
    if i < a.len() {
        assert(a.drop_last().take(i) == a.take(i));
        lemma_sum_prefix(a.drop_last(), i);
    } else {
        assert(a.take(i) == a);
    }
}

/// The strings holding some character sequences.
fn strings_of(v: &Vec<Vec<char>>) -> (r: Vec<String>)
    ensures
        views(r@) == v@.map_values(|w: Vec<char>| w@),
{
    let mut r: Vec<String> = Vec::new();
    let mut i: usize = 0;
    while i < v.len()
        invariant
            i <= v.len(),
            r@.len() == i,
            forall|j: int| 0 <= j < i ==> (#[trigger] r@[j])@ == v@[j]@,
        decreases v.len() - i,
    {
        r.push(string_of(&v[i]));
        i = i + 1;
    }
    assert(views(r@) == v@.map_values(|w: Vec<char>| w@));
    r
}

impl EvalProgram {
    /// One label per output of [`Self::source`]: the expression, with `[j]`
    /// when it has several outputs.
    ///
    /// # Errors
    /// When the arities do not add up to `outputs`, which would attribute a
    /// column to the wrong expression.
    pub fn labels(&self, arities: &[usize], outputs: usize) -> (r: Result<Vec<String>, String>)
        requires
            arities@.len() == self.expressions().len() ==> sum(arities@) <= usize::MAX,
        ensures
            r is Err <==> (arities@.len() != self.expressions().len() || sum(arities@) != outputs),
            r matches Err(e) ==> e@ == labels_error(arities@, outputs as nat),
            r matches Ok(labels) ==> views(labels@) == all_labels(
                self.expressions(),
                arities@,
                arities@.len(),
            ),
            r matches Ok(labels) ==> labels@.len() == outputs,
    {
        proof {
            lemma_labels_count(self.expressions(), arities@, arities@.len());
            assert(arities@.take(arities@.len() as int) =~= arities@);
        }
        let ghost exprs = self.expressions();
        let mut fits = arities.len() == self.exprs.len();
        if fits {
            let mut total: usize = 0;
            let mut i: usize = 0;
            while i < arities.len()
                invariant
                    i <= arities.len(),
                    sum(arities@) <= usize::MAX,
                    total as nat == sum(arities@.take(i as int)),
                decreases arities.len() - i,
            {
                assert(arities@.take(i + 1).drop_last() == arities@.take(i as int));
                proof {
                    lemma_sum_prefix(arities@, i + 1);
                }
                total = total + arities[i];
                i = i + 1;
            }
            assert(arities@.take(i as int) == arities@);
            fits = total == outputs;
        }
        if !fits {
            let mut message: Vec<char> = Vec::new();
            push_str(&mut message, "--eval: the expressions have ");
            push_str(&mut message, "[");
            let mut parts: Vec<Vec<char>> = Vec::new();
            let mut i: usize = 0;
            while i < arities.len()
                invariant
                    i <= arities.len(),
                    parts@.len() == i,
                    forall|j: int| 0 <= j < i ==> (#[trigger] parts@[j])@ == decimal(arities@[j] as nat),
                decreases arities.len() - i,
            {
                let mut d: Vec<char> = Vec::new();
                push_decimal(&mut d, arities[i]);
                parts.push(d);
                i = i + 1;
            }
            let sep = chars_of(", ");
            let joined = join_chars(&parts, &sep);
            assert(parts@.map_values(|w: Vec<char>| w@) == arities@.map_values(
                |x: usize| decimal(x as nat),
            ));
            push_chars(&mut message, &joined);
            push_str(&mut message, "]");
            push_str(&mut message, " outputs and the program ");
            push_decimal(&mut message, outputs);
            return Err(string_of(&message));
        }
        let mut labels: Vec<Vec<char>> = Vec::new();
        let mut k: usize = 0;
        while k < self.exprs.len()
            invariant
                k <= self.exprs.len(),
                arities@.len() == self.exprs.len(),
                exprs == self.expressions(),
                labels@.map_values(|w: Vec<char>| w@) == all_labels(exprs, arities@, k as nat),
            decreases self.exprs.len() - k,
        {
            let e = chars_of(self.exprs[k].as_str());
            let arity = arities[k];
            let ghost before = labels@.map_values(|w: Vec<char>| w@);
            if arity == 1 {
                labels.push(e.clone());
                assert(labels@.map_values(|w: Vec<char>| w@) == before + seq![e@]);
            } else {
                let mut j: usize = 0;
                while j < arity
                    invariant
                        j <= arity,
                        labels@.map_values(|w: Vec<char>| w@) == before + Seq::new(
                            j as nat,
                            |i: int| e@ + "["@ + decimal(i as nat) + "]"@,
                        ),
                    decreases arity - j,
                {
                    let ghost prior = labels@;
                    let mut l = e.clone();
                    push_str(&mut l, "[");
                    push_decimal(&mut l, j);
                    push_str(&mut l, "]");
                    let ghost lv = l@;
                    assert(lv == e@ + "["@ + decimal(j as nat) + "]"@);
                    labels.push(l);
                    assert(labels@ == prior.push(l));
                    let ghost f = |i: int| e@ + "["@ + decimal(i as nat) + "]"@;
                    assert(Seq::new((j + 1) as nat, f) =~= Seq::new(j as nat, f).push(lv));
                    assert(labels@.map_values(|w: Vec<char>| w@) =~= prior.map_values(
                        |w: Vec<char>| w@,
                    ).push(lv));
                    j = j + 1;
                }
            }
            assert(exprs[k as int] == e@);
            assert(all_labels(exprs, arities@, (k + 1) as nat) == all_labels(exprs, arities@, k as nat)
                + expr_labels(exprs[k as int], arities@[k as int] as nat));
            k = k + 1;
        }
        Ok(strings_of(&labels))
    }
}

/// Whether `c` is alphabetic or numeric in Unicode's sense: what
/// `char::is_alphanumeric` answers, a property of `c` alone.
pub uninterp spec fn alphanumeric(c: char) -> bool;

/// `char::is_alphanumeric`, which tests Unicode's `Alphabetic` and `Numeric`
/// properties; its result is named [`alphanumeric`] and nothing more is
/// claimed of it.
#[verifier::external_body]
fn is_alphanumeric(c: char) -> (b: bool)
    ensures
        b == alphanumeric(c),
{
    c.is_alphanumeric()
}

/// Whether `c` can be part of an identifier: a letter, a digit or `_`.
pub open spec fn identifier_char(c: char) -> bool {
    alphanumeric(c) || c == '_'
}

/// `s[a..b]` is a maximal run of identifier characters of `s`.
pub open spec fn is_word(s: Seq<char>, a: int, b: int) -> bool {
    &&& 0 <= a < b <= s.len()
    &&& forall|i: int| a <= i < b ==> #[trigger] identifier_char(s[i])
    &&& (a == 0 || !identifier_char(s[a - 1]))
    &&& (b == s.len() || !identifier_char(s[b]))
}

/// Whether `symbol` is one of the identifiers of `expr`: the maximal runs
/// of letters, digits and `_`.
pub open spec fn uses_identifier(expr: Seq<char>, symbol: Seq<char>) -> bool {
    exists|a: int, b: int| is_word(expr, a, b) && expr.subrange(a, b) == symbol
}

/// What opens the name of an undefined symbol in a diagnostic.
pub open spec fn undefined_marker() -> Seq<char> {
    "undefined symbol `"@
}

/// The symbol of an "undefined symbol `NAME`" diagnostic: what follows the
/// first marker, up to the next marker and then up to the first backquote.
pub open spec fn spec_undefined_symbol(error: Seq<char>) -> Option<Seq<char>> {
    match find_from(error, undefined_marker(), 0) {
        None => None,
        Some(i) => {
            let rest = error.skip(i + undefined_marker().len());
            let piece = match find_from(rest, undefined_marker(), 0) {
                Some(j) => rest.take(j),
                None => rest,
            };
            match find_from(piece, seq!['`'], 0) {
                Some(j) => Some(piece.take(j)),
                None => Some(piece),
            }
        },
    }
}

/// `name:LINE:`, a location on line `line` of the source named `name`.
pub open spec fn on_line(name: Seq<char>, line: nat) -> Seq<char> {
    name + ":"@ + decimal(line) + ":"@
}

/// `name:LINE:1:`, the first column of line `line`.
pub open spec fn on_line_start(name: Seq<char>, line: nat) -> Seq<char> {
    name + ":"@ + decimal(line) + ":1:"@
}

/// `<eval k>:1:`, the location of expression `k` as its writer knows it.
pub open spec fn eval_tag(k: nat) -> Seq<char> {
    "<eval "@ + decimal(k) + ">:1:"@
}

/// The 1-based line of the wrapped source that holds expression `k`.
pub open spec fn spec_expr_line(file: Seq<char>, k: nat) -> nat {
    wrapped_file_lines(file) + 3 * k + 2
}

/// The text of `error` once the locations of the first `n` expressions
/// are renamed: a location on the terminator of expression `k` is the end
/// of the expression, one on its line is on it.
pub open spec fn explained_text(
    name: Seq<char>,
    file: Seq<char>,
    exprs: Seq<Seq<char>>,
    error: Seq<char>,
    n: nat,
) -> Seq<char>
    decreases n,
{
    if n == 0 {
        error
    } else {
        let k = (n - 1) as nat;
        let line = spec_expr_line(file, k);
        let text = explained_text(name, file, exprs, error, k);
        replace(
            replace(
                text,
                on_line_start(name, line + 1),
                eval_tag(k) + decimal(exprs[k as int].len() + 1) + ":"@,
            ),
            on_line(name, line),
            eval_tag(k),
        )
    }
}

/// Whether the diagnostic locates something on expression `k`, on its line
/// or its terminator.
pub open spec fn is_located(
    name: Seq<char>,
    file: Seq<char>,
    exprs: Seq<Seq<char>>,
    error: Seq<char>,
    k: nat,
) -> bool {
    let text = explained_text(name, file, exprs, error, k);
    let line = spec_expr_line(file, k);
    contains(text, on_line(name, line)) || contains(text, on_line_start(name, line + 1))
}

/// The note that says which expression `<eval k>` is.
pub open spec fn location_note(k: nat, e: Seq<char>, line: nat) -> Seq<char> {
    "  = note: <eval "@ + decimal(k) + "> is `--eval '"@ + e + "'`, line "@ + decimal(line)
        + " of the source as wrapped"@
}

/// The notes of the located expressions among the first `n`.
pub open spec fn location_notes(
    name: Seq<char>,
    file: Seq<char>,
    exprs: Seq<Seq<char>>,
    error: Seq<char>,
    n: nat,
) -> Seq<Seq<char>>
    decreases n,
{
    if n == 0 {
        Seq::empty()
    } else {
        let k = (n - 1) as nat;
        location_notes(name, file, exprs, error, k) + if is_located(name, file, exprs, error, k) {
            seq![location_note(k, exprs[k as int], spec_expr_line(file, k))]
        } else {
            Seq::empty()
        }
    }
}

/// The note that attributes an unlocated undefined symbol to an expression.
pub open spec fn symbol_note(symbol: Seq<char>, k: nat, e: Seq<char>) -> Seq<char> {
    "  = note: `"@ + symbol + "` is used by <eval "@ + decimal(k) + ">, `--eval '"@ + e
        + "'`: an expression sees the file's top-level definitions, not those local to a `with` block"@
}

/// The notes of the first `n` expressions that use `symbol` and were not
/// located.
pub open spec fn symbol_notes(
    name: Seq<char>,
    file: Seq<char>,
    exprs: Seq<Seq<char>>,
    error: Seq<char>,
    symbol: Seq<char>,
    n: nat,
) -> Seq<Seq<char>>
    decreases n,
{
    if n == 0 {
        Seq::empty()
    } else {
        let k = (n - 1) as nat;
        symbol_notes(name, file, exprs, error, symbol, k) + if !is_located(name, file, exprs, error, k)
            && uses_identifier(exprs[k as int], symbol) {
            seq![symbol_note(symbol, k, exprs[k as int])]
        } else {
            Seq::empty()
        }
    }
}

/// The note that names the wrapper's own lines.
pub open spec fn wrapper_note() -> Seq<char> {
    "  = note: `__faustprobe_env = environment{...` and `process = ...` are the wrapper `--eval` puts around the file"@
}

/// Every note of an explanation, in order.
pub open spec fn explain_notes(
    name: Seq<char>,
    file: Seq<char>,
    exprs: Seq<Seq<char>>,
    error: Seq<char>,
) -> Seq<Seq<char>> {
    let n = exprs.len();
    let text = explained_text(name, file, exprs, error, n);
    location_notes(name, file, exprs, error, n) + match spec_undefined_symbol(error) {
        Some(symbol) => symbol_notes(name, file, exprs, error, symbol, n),
        None => Seq::empty(),
    } + if contains(text, "__faustprobe_env"@) {
        seq![wrapper_note()]
    } else {
        Seq::empty()
    }
}

/// A compile error of the wrapped source, rewritten for the person who
/// typed the expressions.
pub open spec fn spec_explain(
    name: Seq<char>,
    file: Seq<char>,
    exprs: Seq<Seq<char>>,
    error: Seq<char>,
) -> Seq<char> {
    let text = explained_text(name, file, exprs, error, exprs.len());
    let notes = explain_notes(name, file, exprs, error);
    if notes.len() == 0 {
        text
    } else {
        trim_end(text) + "\n"@ + join(notes, "\n"@)
    }
}

/// The symbol of an "undefined symbol `NAME`" diagnostic.
fn undefined_symbol(error: &[char]) -> (r: Option<Vec<char>>)
    ensures
        match spec_undefined_symbol(error@) {
            Some(symbol) => r is Some && r->Some_0@ == symbol,
            None => r is None,
        },
{
    let marker = chars_of("undefined symbol `");
    proof {
        crate::text::lemma_find_from(error@, marker@, 0);
    }
    let found = find_chars(error, &marker, 0);
    if found.is_none() {
        return None;
    }
    let i = found.unwrap();
    let len = error.len();
    assert(find_from(error@, marker@, 0)->Some_0 + marker@.len() <= len);
    assert(find_from(error@, marker@, 0) == Some(i as int));
    proof {
        crate::text::lemma_find_from(error@, marker@, 0);
    }
    assert(occurs_at(error@, marker@, i as int));
    let mut rest: Vec<char> = Vec::new();
    let mut k: usize = i + marker.len();
    while k < error.len()
        invariant
            i + marker.len() <= k <= error.len(),
            rest@ == error@.subrange(i + marker.len(), k as int),
        decreases error.len() - k,
    {
        rest.push(error[k]);
        k = k + 1;
        assert(rest@ == error@.subrange(i + marker.len(), k as int));
    }
    assert(rest@ == error@.skip(i + marker@.len()));
    proof {
        crate::text::lemma_find_from(rest@, marker@, 0);
    }
    let piece = match find_chars(&rest, &marker, 0) {
        Some(j) => {
            assert(occurs_at(rest@, marker@, j as int));
            take_chars(&rest, j)
        },
        None => rest,
    };
    let tick = chars_of("`");
    proof {
        reveal_strlit("`");
    }
    assert(tick@ =~= seq!['`']);
    proof {
        crate::text::lemma_find_from(piece@, tick@, 0);
    }
    let symbol = match find_chars(&piece, &tick, 0) {
        Some(j) => {
            assert(occurs_at(piece@, tick@, j as int));
            take_chars(&piece, j)
        },
        None => piece,
    };
    Some(symbol)
}

/// The first `n` characters of `s`.
fn take_chars(s: &[char], n: usize) -> (r: Vec<char>)
    requires
        n <= s.len(),
    ensures
        r@ == s@.take(n as int),
{
    let mut r: Vec<char> = Vec::new();
    let mut i: usize = 0;
    while i < n
        invariant
            i <= n <= s.len(),
            r@ == s@.take(i as int),
        decreases n - i,
    {
        r.push(s[i]);
        i = i + 1;
        assert(r@ == s@.take(i as int));
    }
    r
}

/// Whether `symbol` is one of the identifiers of `expr`.
fn uses_identifier_chars(expr: &[char], symbol: &[char]) -> (b: bool)
    ensures
        b == uses_identifier(expr@, symbol@),
{
    let n = expr.len();
    let mut i: usize = 0;
    while i < n
        invariant
            i <= n == expr.len(),
            i == 0 || i == n || !identifier_char(expr@[i - 1]),
            forall|a: int, b: int|
                #![trigger is_word(expr@, a, b)]
                is_word(expr@, a, b) && a < i ==> expr@.subrange(a, b) != symbol@,
        decreases n - i,
    {
        if is_alphanumeric(expr[i]) || expr[i] == '_' {
            let start = i;
            while i < n && (is_alphanumeric(expr[i]) || expr[i] == '_')
                invariant
                    start <= i <= n == expr.len(),
                    forall|k: int| start <= k < i ==> #[trigger] identifier_char(expr@[k]),
                decreases n - i,
            {
                i = i + 1;
            }
            assert(is_word(expr@, start as int, i as int));
            if i - start == symbol.len() && matches_at(expr, symbol, start) {
                assert(expr@.subrange(start as int, i as int) == symbol@);
                return true;
            }
            assert forall|a: int, b: int|
                #![trigger is_word(expr@, a, b)]
                is_word(expr@, a, b) && a < i implies expr@.subrange(a, b) != symbol@ by {
                if a >= start {
                    if a > start {
                        assert(identifier_char(expr@[a - 1]));
                    }
                    if b < i {
                        assert(identifier_char(expr@[b]));
                    }
                    if b > i {
                        assert(identifier_char(expr@[i as int]));
                    }
                    assert(b == i);
                    if expr@.subrange(a, b) == symbol@ {
                        assert(occurs_at(expr@, symbol@, start as int));
                    }
                }
            }
            if i < n {
                assert(!identifier_char(expr@[i as int]));
                assert forall|a: int, b: int|
                    #![trigger is_word(expr@, a, b)]
                    is_word(expr@, a, b) && a < i + 1 implies expr@.subrange(a, b) != symbol@ by {
                    if a == i {
                        assert(identifier_char(expr@[a]));
                    }
                }
                i = i + 1;
            }
        } else {
            assert forall|a: int, b: int|
                #![trigger is_word(expr@, a, b)]
                is_word(expr@, a, b) && a < i + 1 implies expr@.subrange(a, b) != symbol@ by {
                if a == i {
                    assert(identifier_char(expr@[a]));
                }
            }
            i = i + 1;
        }
    }
    false
}

impl EvalProgram {
    /// Rewrites a compile error of the wrapped source for the person who
    /// typed the expressions:
    ///
    /// - a location on the lines of expression `k` becomes `<eval k>:1:COL`,
    ///   with a note saying which expression that is (locations in the file
    ///   are already right and are left alone);
    /// - an undefined symbol that the diagnostic could not locate is
    ///   attributed to the expressions that use it, with the usual reason: an
    ///   expression sees the file's top-level definitions, not those local to
    ///   a `with` block;
    /// - the wrapper's own lines, when they show, are said to be the wrapper.
    pub fn explain(&self, name: &str, error: &str) -> (r: String)
        requires
            wrapped_file_lines(self.file_text()) + 3 * self.expressions().len() + 3 <= usize::MAX,
            forall|k: int|
                0 <= k < self.expressions().len() ==> #[trigger] self.expressions()[k].len()
                    < usize::MAX,
        ensures
            r@ == spec_explain(name@, self.file_text(), self.expressions(), error@),
    {
        let ghost exprs = self.expressions();
        let ghost file = self.file_text();
        let nm = chars_of(name);
        let err = chars_of(error);
        let file_lines = self.file_lines();
        let n = self.exprs.len();
        let mut text: Vec<char> = err.clone();
        let mut located: Vec<bool> = Vec::new();
        let mut notes: Vec<Vec<char>> = Vec::new();
        let mut k: usize = 0;
        while k < n
            invariant
                k <= n == self.exprs.len() == exprs.len(),
                exprs == self.expressions(),
                file == self.file_text(),
                nm@ == name@,
                err@ == error@,
                file_lines as nat == wrapped_file_lines(file),
                wrapped_file_lines(file) + 3 * exprs.len() + 3 <= usize::MAX,
                forall|j: int| 0 <= j < exprs.len() ==> #[trigger] exprs[j].len() < usize::MAX,
                text@ == explained_text(name@, file, exprs, error@, k as nat),
                located@.len() == k,
                forall|j: int| 0 <= j < k ==> located@[j] == is_located(name@, file, exprs, error@, j as nat),
                notes@.map_values(|w: Vec<char>| w@) == location_notes(name@, file, exprs, error@, k as nat),
            decreases n - k,
        {
            let e = chars_of(self.exprs[k].as_str());
            assert(e@ == exprs[k as int]);
            let line = file_lines + 3 * k + 2;
            let mut on_expr: Vec<char> = nm.clone();
            push_str(&mut on_expr, ":");
            push_decimal(&mut on_expr, line);
            push_str(&mut on_expr, ":");
            let mut on_terminator: Vec<char> = nm.clone();
            push_str(&mut on_terminator, ":");
            push_decimal(&mut on_terminator, line + 1);
            push_str(&mut on_terminator, ":1:");
            let mut tag: Vec<char> = Vec::new();
            push_str(&mut tag, "<eval ");
            push_decimal(&mut tag, k);
            push_str(&mut tag, ">:1:");
            let mut end_tag: Vec<char> = tag.clone();
            push_decimal(&mut end_tag, e.len() + 1);
            push_str(&mut end_tag, ":");
            let is_here = contains_chars(&text, &on_expr) || contains_chars(&text, &on_terminator);
            let replaced = replace_chars(&text, &on_terminator, &end_tag);
            text = replace_chars(&replaced, &on_expr, &tag);
            located.push(is_here);
            let ghost before = notes@.map_values(|w: Vec<char>| w@);
            if is_here {
                let mut note: Vec<char> = Vec::new();
                push_str(&mut note, "  = note: <eval ");
                push_decimal(&mut note, k);
                push_str(&mut note, "> is `--eval '");
                push_chars(&mut note, &e);
                push_str(&mut note, "'`, line ");
                push_decimal(&mut note, line);
                push_str(&mut note, " of the source as wrapped");
                let ghost nv = note@;
                notes.push(note);
                assert(notes@.map_values(|w: Vec<char>| w@) =~= before.push(nv));
            }
            assert(located@[k as int] == is_located(name@, file, exprs, error@, k as nat));
            k = k + 1;
        }
        let ghost with_locations = notes@.map_values(|w: Vec<char>| w@);
        match undefined_symbol(&err) {
            Some(symbol) => {
                let mut k: usize = 0;
                while k < n
                    invariant
                        k <= n == self.exprs.len() == exprs.len(),
                        exprs == self.expressions(),
                        located@.len() == n,
                        forall|j: int| 0 <= j < n ==> located@[j] == is_located(name@, file, exprs, error@, j as nat),
                        notes@.map_values(|w: Vec<char>| w@) == with_locations + symbol_notes(
                            name@,
                            file,
                            exprs,
                            error@,
                            symbol@,
                            k as nat,
                        ),
                    decreases n - k,
                {
                    let e = chars_of(self.exprs[k].as_str());
                    assert(e@ == exprs[k as int]);
                    let ghost before = notes@.map_values(|w: Vec<char>| w@);
                    if !located[k] && uses_identifier_chars(&e, &symbol) {
                        let mut note: Vec<char> = Vec::new();
                        push_str(&mut note, "  = note: `");
                        push_chars(&mut note, &symbol);
                        push_str(&mut note, "` is used by <eval ");
                        push_decimal(&mut note, k);
                        push_str(&mut note, ">, `--eval '");
                        push_chars(&mut note, &e);
                        push_str(
                            &mut note,
                            "'`: an expression sees the file's top-level definitions, not those local to a `with` block",
                        );
                        let ghost nv = note@;
                        notes.push(note);
                        assert(notes@.map_values(|w: Vec<char>| w@) =~= before.push(nv));
                    }
                    k = k + 1;
                }
            },
            None => {
                assert(with_locations + Seq::<Seq<char>>::empty() == with_locations);
            },
        }
        let env = chars_of("__faustprobe_env");
        if contains_chars(&text, &env) {
            let note = chars_of(
                "  = note: `__faustprobe_env = environment{...` and `process = ...` are the wrapper `--eval` puts around the file",
            );
            let ghost before = notes@.map_values(|w: Vec<char>| w@);
            let ghost nv = note@;
            notes.push(note);
            assert(notes@.map_values(|w: Vec<char>| w@) =~= before.push(nv));
        }
        let ghost all = notes@.map_values(|w: Vec<char>| w@);
        assert(all == explain_notes(name@, file, exprs, error@));
        if notes.len() == 0 {
            string_of(&text)
        } else {
            let mut out = trim_end_chars(&text);
            push_str(&mut out, "\n");
            let sep = chars_of("\n");
            let joined = join_chars(&notes, &sep);
            push_chars(&mut out, &joined);
            string_of(&out)
        }
    }
}

/// Whether `s` holds no line break.
pub open spec fn single_line(s: Seq<char>) -> bool {
    forall|i: int| 0 <= i < s.len() ==> s[i] != '\n' && s[i] != '\r'
}

/// `trim_end` leaves what it returns unchanged.
pub proof fn lemma_trim_end_idempotent(s: Seq<char>)
    ensures
        trim_end(trim_end(s)) == trim_end(s),
    decreases s.len(),
{
    if s.len() > 0 && is_whitespace(s.last()) {
        lemma_trim_end_idempotent(s.drop_last());
    }
}

/// What `trim_end` leaves is a prefix of `s`.
proof fn lemma_trim_end_part(s: Seq<char>)
    ensures
        exists|j: int| 0 <= j <= s.len() && trim_end(s) == s.take(j),
    decreases s.len(),
{
    if s.len() > 0 && is_whitespace(s.last()) {
        lemma_trim_end_part(s.drop_last());
        let j = choose|j: int| 0 <= j <= s.drop_last().len() && trim_end(s.drop_last()) == s.drop_last().take(j);
        assert(s.drop_last().take(j) == s.take(j));
    } else {
        assert(s.take(s.len() as int) == s);
    }
}

/// What `trim_start` leaves is a suffix of `s`.
proof fn lemma_trim_start_part(s: Seq<char>)
    ensures
        exists|j: int| 0 <= j <= s.len() && trim_start(s) == s.skip(j),
    decreases s.len(),
{
    if s.len() > 0 && is_whitespace(s[0]) {
        lemma_trim_start_part(s.drop_first());
        let j = choose|j: int| 0 <= j <= s.drop_first().len() && trim_start(s.drop_first()) == s.drop_first().skip(j);
        assert(s.drop_first().skip(j) == s.skip(j + 1));
    } else {
        assert(s.skip(0) == s);
    }
}

proof fn lemma_trim_end_char_part(s: Seq<char>, c: char)
    ensures
        exists|j: int| 0 <= j <= s.len() && trim_end_char(s, c) == s.take(j),
    decreases s.len(),
{
    if s.len() > 0 && s.last() == c {
        lemma_trim_end_char_part(s.drop_last(), c);
        let j = choose|j: int| 0 <= j <= s.drop_last().len() && trim_end_char(s.drop_last(), c) == s.drop_last().take(j);
        assert(s.drop_last().take(j) == s.take(j));
    } else {
        assert(s.take(s.len() as int) == s);
    }
}

/// A flattened expression holds no line break.
proof fn lemma_flat_expr_single_line(e: Seq<char>)
    ensures
        single_line(flat_expr(e)),
{
    let f = flatten(e);
    assert(single_line(f));
    lemma_trim_start_part(f);
    let a = trim_start(f);
    assert(single_line(a));
    lemma_trim_end_part(a);
    let b = trim_end(a);
    assert(single_line(b));
    lemma_trim_end_char_part(b, ';');
    let c = trim_end_char(b, ';');
    assert(single_line(c));
    lemma_trim_end_part(c);
}

/// An expression as it is wrapped.
fn flat_one(expr: &str) -> (r: Vec<char>)
    ensures
        r@ == flat_expr(expr@),
{
    let chars = chars_of(expr);
    let mut flat: Vec<char> = Vec::new();
    let mut i: usize = 0;
    while i < chars.len()
        invariant
            i <= chars.len(),
            chars@ == expr@,
            flat@ == flatten(chars@).take(i as int),
        decreases chars.len() - i,
    {
        let c = chars[i];
        flat.push(if c == '\n' || c == '\r' { ' ' } else { c });
        i = i + 1;
        assert(flat@ == flatten(chars@).take(i as int));
    }
    assert(flatten(chars@).take(i as int) == flatten(chars@));
    let a = trim_start_chars(&flat);
    let b = trim_end_chars(&a);
    let c = trim_end_char_chars(&b, ';');
    trim_end_chars(&c)
}

/// The number of lines `str::lines` finds in `s`.
fn count_lines(s: &[char]) -> (n: usize)
    ensures
        n as nat == line_count(s@),
{
    let mut n: usize = 0;
    let mut i: usize = 0;
    while i < s.len()
        invariant
            i <= s.len(),
            n as nat == count_char(s@.take(i as int), '\n'),
            n + (if i > 0 && s@[i - 1] != '\n' { 1int } else { 0int }) <= i,
        decreases s.len() - i,
    {
        assert(s@.take(i + 1).drop_last() == s@.take(i as int));
        if s[i] == '\n' {
            n = n + 1;
        }
        i = i + 1;
    }
    assert(s@.take(i as int) == s@);
    if s.len() > 0 && s[s.len() - 1] != '\n' {
        n + 1
    } else {
        n
    }
}

} // verus!

verus! {

/// Whether a CSV field must be quoted: it holds a comma or a quote.
pub open spec fn csv_needs_quotes(s: Seq<char>) -> bool {
    exists|i: int| 0 <= i < s.len() && (s[i] == ',' || s[i] == '"')
}

/// A CSV header field as RFC 4180 has it: quoted, with its quotes doubled,
/// when it holds a comma or a quote; as it is otherwise.
pub open spec fn spec_csv_field(s: Seq<char>) -> Seq<char> {
    if csv_needs_quotes(s) {
        seq!['"'] + replace(s, seq!['"'], seq!['"', '"']) + seq!['"']
    } else {
        s
    }
}

/// A CSV header field: quoted, as RFC 4180 has it, when it holds a comma or
/// a quote, which an expression with arguments does.
pub fn csv_field(text: &str) -> (r: String)
    ensures
        r@ == spec_csv_field(text@),
{
    let chars = chars_of(text);
    let mut needs = false;
    let mut i: usize = 0;
    while i < chars.len()
        invariant
            i <= chars.len(),
            chars@ == text@,
            needs <==> exists|j: int| 0 <= j < i && (chars@[j] == ',' || chars@[j] == '"'),
        decreases chars.len() - i,
    {
        if chars[i] == ',' || chars[i] == '"' {
            needs = true;
        }
        i = i + 1;
    }
    if !needs {
        return string_of(&chars);
    }
    let mut quote: Vec<char> = Vec::new();
    quote.push('"');
    let mut doubled: Vec<char> = Vec::new();
    doubled.push('"');
    doubled.push('"');
    assert(quote@ =~= seq!['"']);
    assert(doubled@ =~= seq!['"', '"']);
    let inner = replace_chars(&chars, &quote, &doubled);
    let mut out: Vec<char> = Vec::new();
    out.push('"');
    push_chars(&mut out, &inner);
    out.push('"');
    assert(out@ =~= seq!['"'] + inner@ + seq!['"']);
    string_of(&out)
}

} // verus!

verus! {

/// The decimal text of a number holds no line feed.
proof fn lemma_decimal_no_newline(n: nat)
    ensures
        no_newline(decimal(n)),
    decreases n,
{
    if n >= 10 {
        lemma_decimal_no_newline(n / 10);
    }
    assert(digit_char(n % 10) != '\n');
}

/// One line per line feed, and one more.
proof fn lemma_lines_count(s: Seq<char>)
    ensures
        lines_of(s).len() == count_char(s, '\n') + 1,
    decreases s.len(),
{
    if s.len() > 0 {
        lemma_lines_count(s.drop_last());
        lemma_lines_nonempty(s.drop_last());
    }
}

/// A text has no more line feeds than characters, and none past a last
/// character that is not one.
proof fn lemma_count_char_bound(s: Seq<char>, c: char)
    ensures
        count_char(s, c) <= s.len(),
        s.len() > 0 && s.last() != c ==> count_char(s, c) < s.len(),
    decreases s.len(),
{
    if s.len() > 0 {
        lemma_count_char_bound(s.drop_last(), c);
    }
}

/// A file is wrapped on at most one line more than it has characters.
proof fn lemma_wrapped_lines_bound(f: Seq<char>)
    ensures
        wrapped_file_lines(trim_end(f)) <= f.len() + 1,
{
    lemma_trim_end_part(f);
    lemma_count_char_bound(trim_end(f), '\n');
}

/// A file without trailing whitespace has as many lines as it is wrapped on.
proof fn lemma_file_lines(f: Seq<char>)
    requires
        trim_end(f) == f,
    ensures
        lines_of(f).len() == wrapped_file_lines(f),
{
    lemma_lines_count(f);
    if f.len() > 0 && is_whitespace(f.last()) {
        lemma_trim_end_part(f.drop_last());
        assert(trim_end(f).len() < f.len());
    }
}

/// The three lines a definition adds after a line feed: its name, the
/// expression alone, and the terminator.
proof fn lemma_block_lines(a: Seq<char>, k: nat, e: Seq<char>)
    requires
        lines_of(a).len() >= 1,
        lines_of(a).last().len() == 0,
        no_newline(e),
    ensures
        lines_of(a + expr_block(k, e)).len() == lines_of(a).len() + 3,
        lines_of(a + expr_block(k, e)).last().len() == 0,
        lines_of(a + expr_block(k, e))[lines_of(a).len() as int] == e,
        forall|i: int|
            0 <= i < lines_of(a).len() - 1 ==> #[trigger] lines_of(a + expr_block(k, e))[i]
                == lines_of(a)[i],
{
    reveal_strlit("__faustprobe_eval");
    reveal_strlit(" =\n");
    reveal_strlit("\n;\n");
    let name = "__faustprobe_eval"@ + decimal(k) + seq![' ', '='];
    lemma_decimal_no_newline(k);
    assert(no_newline(name));
    assert(no_newline(seq![';']));
    let a1 = a + name;
    let a2 = a1.push('\n');
    let a3 = a2 + e;
    let a4 = a3.push('\n');
    let a5 = a4 + seq![';'];
    let a6 = a5.push('\n');
    assert(a + expr_block(k, e) =~= a6);
    lemma_lines_plain(a, name);
    assert(lines_of(a).last() + name =~= name);
    lemma_lines_newline(a1);
    lemma_lines_plain(a2, e);
    assert(lines_of(a2).last() + e =~= e);
    lemma_lines_newline(a3);
    lemma_lines_plain(a4, seq![';']);
    lemma_lines_newline(a5);
}

/// The definitions of the first `n` expressions, after a line feed: three
/// lines each, the expression on the second.
proof fn lemma_blocks_lines(a: Seq<char>, exprs: Seq<Seq<char>>, n: nat)
    requires
        lines_of(a).len() >= 1,
        lines_of(a).last().len() == 0,
        n <= exprs.len(),
        forall|k: int| 0 <= k < n ==> #[trigger] no_newline(exprs[k]),
    ensures
        lines_of(a + expr_blocks(exprs, n)).len() == lines_of(a).len() + 3 * n,
        lines_of(a + expr_blocks(exprs, n)).last().len() == 0,
        forall|k: int|
            0 <= k < n ==> #[trigger] lines_of(a + expr_blocks(exprs, n))[lines_of(a).len() + 3 * k]
                == exprs[k],
        forall|i: int|
            0 <= i < lines_of(a).len() - 1 ==> #[trigger] lines_of(a + expr_blocks(exprs, n))[i]
                == lines_of(a)[i],
    decreases n,
{
    if n == 0 {
        assert(a + expr_blocks(exprs, 0) =~= a);
    } else {
        let m = (n - 1) as nat;
        lemma_blocks_lines(a, exprs, m);
        let b = a + expr_blocks(exprs, m);
        assert(no_newline(exprs[m as int]));
        lemma_block_lines(b, m, exprs[m as int]);
        assert(a + expr_blocks(exprs, n) =~= b + expr_block(m, exprs[m as int]));
    }
}

/// The lines of the environment followed by anything: the file's, the
/// first behind the opener, then three per expression.
proof fn lemma_environment_lines(f: Seq<char>, exprs: Seq<Seq<char>>, rest: Seq<char>)
    requires
        trim_end(f) == f,
        forall|k: int| 0 <= k < exprs.len() ==> #[trigger] single_line(exprs[k]),
    ensures
        ({
            let ls = lines_of(environment(f, exprs) + rest);
            let lf = lines_of(f);
            &&& lf.len() == wrapped_file_lines(f)
            &&& ls[0] == opener() + lf[0]
            &&& forall|i: int| 0 < i < lf.len() ==> #[trigger] ls[i] == lf[i]
            &&& forall|k: int|
                0 <= k < exprs.len() ==> #[trigger] ls[wrapped_file_lines(f) + 3 * k + 1]
                    == exprs[k]
        }),
{
    reveal_strlit("__faustprobe_env = environment{ ");
    reveal_strlit("\n");
    reveal_strlit("};\n");
    lemma_file_lines(f);
    lemma_lines_nonempty(f);
    let lf = lines_of(f);
    let a0 = opener() + f;
    assert(no_newline(opener()));
    lemma_lines_prepend(opener(), f);
    let a1 = a0.push('\n');
    lemma_lines_newline(a0);
    assert forall|k: int| 0 <= k < exprs.len() implies #[trigger] no_newline(exprs[k]) by {
        assert(single_line(exprs[k]));
    }
    lemma_blocks_lines(a1, exprs, exprs.len());
    let b = a1 + expr_blocks(exprs, exprs.len());
    let s = environment(f, exprs) + rest;
    assert(s =~= b + ("};\n"@ + rest));
    lemma_lines_append(b, "};\n"@ + rest);
    assert forall|k: int| 0 <= k < exprs.len() implies #[trigger] lines_of(s)[wrapped_file_lines(f)
        + 3 * k + 1] == exprs[k] by {
        assert(lines_of(b)[lines_of(a1).len() + 3 * k] == exprs[k]);
    }
    assert forall|i: int| 0 < i < lf.len() implies #[trigger] lines_of(s)[i] == lf[i] by {
        assert(lines_of(b)[i] == lines_of(a1)[i]);
    }
    assert(lines_of(b)[0] == lines_of(a1)[0]);
}

impl EvalProgram {
    /// The layout the evaluation rests on. In the wrapped source, and in the
    /// source of its arities, the file keeps its line numbers (its first
    /// line behind the opener, the others as they are), and expression `k`
    /// is alone on the line [`EvalProgram::expr_line`] gives for it, from its
    /// first column.
    pub proof fn lemma_layout(self)
        requires
            self.well_formed(),
        ensures
            lines_of(self.file_text()).len() == wrapped_file_lines(self.file_text()),
            lines_of(spec_source(self.file_text(), self.expressions()))[0] == opener() + lines_of(
                self.file_text(),
            )[0],
            lines_of(spec_arity_source(self.file_text(), self.expressions()))[0] == opener()
                + lines_of(self.file_text())[0],
            forall|i: int|
                0 < i < lines_of(self.file_text()).len() ==> #[trigger] lines_of(
                    spec_source(self.file_text(), self.expressions()),
                )[i] == lines_of(self.file_text())[i] && lines_of(
                    spec_arity_source(self.file_text(), self.expressions()),
                )[i] == lines_of(self.file_text())[i],
            forall|k: int|
                0 <= k < self.expressions().len() ==> #[trigger] lines_of(
                    spec_source(self.file_text(), self.expressions()),
                )[wrapped_file_lines(self.file_text()) + 3 * k + 1] == self.expressions()[k]
                    && lines_of(spec_arity_source(self.file_text(), self.expressions()))[
                    wrapped_file_lines(self.file_text()) + 3 * k + 1] == self.expressions()[k],
    {
        let f = self.file_text();
        let e = self.expressions();
        assert forall|k: int| 0 <= k < e.len() implies #[trigger] single_line(e[k]) by {
            assert(single_line(self.exprs@[k]@));
        }
        let n = e.len();
        let tail = "process = "@ + join(Seq::new(n, |k: int| member(k as nat)), ", "@) + ";\n"@;
        let atail = "process = "@ + join(Seq::new(n, |k: int| arity_member(k as nat)), ", "@)
            + ";\n"@;
        assert(spec_source(f, e) =~= environment(f, e) + tail);
        assert(spec_arity_source(f, e) =~= environment(f, e) + atail);
        lemma_environment_lines(f, e, tail);
        lemma_environment_lines(f, e, atail);
    }
}

/// Whether `c` occurs nowhere in `s`.
pub open spec fn lacks(s: Seq<char>, c: char) -> bool {
    forall|i: int| 0 <= i < s.len() ==> s[i] != c
}

/// Where `str::rfind` finds `p` in `s`: an occurrence, and none after it.
pub open spec fn last_occurrence(s: Seq<char>, p: Seq<char>, i: int) -> bool {
    occurs_at(s, p, i) && forall|j: int| i < j ==> !occurs_at(s, p, j)
}

/// A decimal number holds digits only.
proof fn lemma_decimal_lacks(n: nat, c: char)
    requires
        !is_ascii_digit(c),
    ensures
        lacks(decimal(n), c),
    decreases n,
{
    if n >= 10 {
        lemma_decimal_lacks(n / 10, c);
    }
}

/// Joining parts that lack `c` with a separator that lacks it gives a text
/// that lacks it.
proof fn lemma_join_lacks(parts: Seq<Seq<char>>, sep: Seq<char>, c: char)
    requires
        forall|k: int| 0 <= k < parts.len() ==> lacks(#[trigger] parts[k], c),
        lacks(sep, c),
    ensures
        lacks(join(parts, sep), c),
    decreases parts.len(),
{
    if parts.len() > 1 {
        lemma_join_lacks(parts.drop_last(), sep, c);
        assert(parts.drop_last().len() == parts.len() - 1);
        assert(lacks(parts.last(), c));
    } else if parts.len() == 1 {
        assert(lacks(parts[0], c));
    }
}

/// The text of a `process` line's members: no `=` in it.
proof fn lemma_members_lack_equals(n: nat)
    ensures
        lacks(join(Seq::new(n, |k: int| member(k as nat)), ", "@), '='),
        lacks(join(Seq::new(n, |k: int| arity_member(k as nat)), ", "@), '='),
{
    reveal_strlit("__faustprobe_env.__faustprobe_eval");
    reveal_strlit("outputs(");
    reveal_strlit(")");
    reveal_strlit(", ");
    let ms = Seq::new(n, |k: int| member(k as nat));
    let cs = Seq::new(n, |k: int| arity_member(k as nat));
    assert forall|k: int| 0 <= k < n implies lacks(#[trigger] ms[k], '=') by {
        lemma_decimal_lacks(k as nat, '=');
    }
    assert forall|k: int| 0 <= k < n implies lacks(#[trigger] cs[k], '=') by {
        lemma_decimal_lacks(k as nat, '=');
        assert(lacks(member(k as nat), '='));
    }
    lemma_join_lacks(ms, ", "@, '=');
    lemma_join_lacks(cs, ", "@, '=');
}

/// In a text that ends with `process = ` and then no `=`, that
/// `process = ` is the last one.
proof fn lemma_last_process(env: Seq<char>, members: Seq<char>)
    requires
        lacks(members, '='),
    ensures
        last_occurrence(env + "process = "@ + members + ";\n"@, "process = "@, env.len() as int),
{
    reveal_strlit("process = ");
    reveal_strlit(";\n");
    let p = "process = "@;
    let s = env + p + members + ";\n"@;
    let l = env.len() as int;
    assert(s.subrange(l, l + p.len()) =~= p);
    assert forall|j: int| l < j implies !occurs_at(s, p, j) by {
        if occurs_at(s, p, j) {
            assert(s.subrange(j, j + p.len())[8] == p[8]);
            assert(s[j + 8] == '=');
            if j + 8 < l + p.len() {
                assert(s[j + 8] == p[j + 8 - l]);
            } else if j + 8 < l + p.len() + members.len() {
                assert(s[j + 8] == members[j + 8 - l - p.len()]);
            } else {
                assert(s[j + 8] == (";\n"@)[j + 8 - l - p.len() - members.len()]);
            }
        }
    }
}

impl EvalProgram {
    /// The program that counts the expressions' outputs is the wrapped
    /// program up to its last `process = `: the same environment, hence the
    /// same line numbers. From there on it names the number of outputs of
    /// each expression where the other names the expression.
    pub proof fn lemma_arity_source(self)
        ensures
            ({
                let s = spec_source(self.file_text(), self.expressions());
                let a = spec_arity_source(self.file_text(), self.expressions());
                let i = environment(self.file_text(), self.expressions()).len() as int;
                &&& last_occurrence(s, "process = "@, i)
                &&& last_occurrence(a, "process = "@, i)
                &&& a.take(i) == s.take(i)
                &&& a.skip(i) == "process = "@ + join(
                    Seq::new(self.expressions().len(), |k: int| arity_member(k as nat)),
                    ", "@,
                ) + ";\n"@
            }),
    {
        let f = self.file_text();
        let e = self.expressions();
        let env = environment(f, e);
        let n = e.len();
        let members = join(Seq::new(n, |k: int| member(k as nat)), ", "@);
        let counts = join(Seq::new(n, |k: int| arity_member(k as nat)), ", "@);
        lemma_members_lack_equals(n);
        lemma_last_process(env, members);
        lemma_last_process(env, counts);
        let s = spec_source(f, e);
        let a = spec_arity_source(f, e);
        let i = env.len() as int;
        assert(s =~= env + "process = "@ + members + ";\n"@);
        assert(a =~= env + "process = "@ + counts + ";\n"@);
        assert(a.take(i) =~= env);
        assert(s.take(i) =~= env);
        assert(a.skip(i) =~= "process = "@ + counts + ";\n"@);
    }
}

} // verus!

verus! {

/// A CSV field as an RFC 4180 reader reads it from index `i` of its inside:
/// a doubled quote is one quote.
pub open spec fn csv_unescape_from(x: Seq<char>, i: int) -> Seq<char>
    decreases x.len() - i,
{
    if i < 0 || i >= x.len() {
        Seq::empty()
    } else if i + 1 < x.len() && x[i] == '"' && x[i + 1] == '"' {
        seq!['"'] + csv_unescape_from(x, i + 2)
    } else {
        seq![x[i]] + csv_unescape_from(x, i + 1)
    }
}

/// What an RFC 4180 reader makes of a field: one that begins with a quote is
/// quoted, and is read as its inside with each doubled quote made one;
/// another is read as it is.
pub open spec fn csv_read(field: Seq<char>) -> Seq<char> {
    if field.len() >= 2 && field[0] == '"' {
        csv_unescape_from(field.subrange(1, field.len() - 1), 0)
    } else {
        field
    }
}

/// Reading `a + b` from the end of `a` on is reading `b`.
proof fn lemma_unescape_shift(a: Seq<char>, b: Seq<char>, j: int)
    requires
        0 <= j <= b.len(),
    ensures
        csv_unescape_from(a + b, a.len() + j) == csv_unescape_from(b, j),
    decreases b.len() - j,
{
    if j < b.len() {
        assert((a + b)[a.len() + j] == b[j]);
        if j + 1 < b.len() {
            assert((a + b)[a.len() + j + 1] == b[j + 1]);
        }
        lemma_unescape_shift(a, b, j + 1);
        if j + 2 <= b.len() {
            lemma_unescape_shift(a, b, j + 2);
        }
    }
}

/// Doubling every quote from `i` on, then reading the result, gives back
/// the text from `i` on.
proof fn lemma_unescape_doubled(s: Seq<char>, i: int)
    requires
        0 <= i <= s.len(),
    ensures
        csv_unescape_from(replace_from(s, seq!['"'], seq!['"', '"'], i), 0) == s.skip(i),
    decreases s.len() - i,
{
    let q = seq!['"'];
    let qq = seq!['"', '"'];
    if i == s.len() {
        assert(s.skip(i) =~= Seq::<char>::empty());
    } else {
        let rest = replace_from(s, q, qq, i + 1);
        lemma_unescape_doubled(s, i + 1);
        assert(occurs_at(s, q, i) <==> s[i] == '"') by {
            if s[i] == '"' {
                assert(s.subrange(i, i + 1) =~= q);
            } else if occurs_at(s, q, i) {
                assert(s.subrange(i, i + 1)[0] == s[i]);
            }
        }
        if s[i] == '"' {
            lemma_unescape_shift(qq, rest, 0);
            assert(csv_unescape_from(qq + rest, 0) == seq!['"'] + csv_unescape_from(qq + rest, 2));
        } else {
            lemma_unescape_shift(seq![s[i]], rest, 0);
            assert(csv_unescape_from(seq![s[i]] + rest, 0) == seq![s[i]] + csv_unescape_from(
                seq![s[i]] + rest,
                1,
            ));
        }
        assert(s.skip(i) =~= seq![s[i]] + s.skip(i + 1));
    }
}

/// A header field written by [`csv_field`] is read back by an RFC 4180
/// reader as the label it was written from.
pub proof fn lemma_csv_read_back(label: Seq<char>)
    ensures
        csv_read(spec_csv_field(label)) == label,
{
    if csv_needs_quotes(label) {
        let inner = replace(label, seq!['"'], seq!['"', '"']);
        let field = seq!['"'] + inner + seq!['"'];
        assert(field.subrange(1, field.len() - 1) =~= inner);
        lemma_unescape_doubled(label, 0);
        assert(label.skip(0) =~= label);
    } else {
        if label.len() >= 2 && label[0] == '"' {
            assert(csv_needs_quotes(label));
        }
    }
}

} // verus!

verus! {

/// Replacing what does not occur from `i` on leaves the text from `i` on.
proof fn lemma_replace_absent(s: Seq<char>, p: Seq<char>, r: Seq<char>, i: int)
    requires
        0 <= i <= s.len(),
        forall|j: int| i <= j ==> !occurs_at(s, p, j),
    ensures
        replace_from(s, p, r, i) == s.skip(i),
    decreases s.len() - i,
{
    if i < s.len() {
        lemma_replace_absent(s, p, r, i + 1);
        assert(s.skip(i) =~= seq![s[i]] + s.skip(i + 1));
    } else {
        assert(s.skip(i) =~= Seq::<char>::empty());
    }
}

/// Replacing what `s` does not contain leaves `s` as it is.
proof fn lemma_replace_not_contained(s: Seq<char>, p: Seq<char>, r: Seq<char>)
    requires
        !contains(s, p),
    ensures
        replace(s, p, r) == s,
{
    crate::text::lemma_find_from(s, p, 0);
    lemma_replace_absent(s, p, r, 0);
    assert(s.skip(0) =~= s);
}

/// Whether `error` locates nothing on the lines of the first `n`
/// expressions, neither on an expression nor on its terminator.
pub open spec fn locates_no_expression(
    name: Seq<char>,
    file: Seq<char>,
    exprs: Seq<Seq<char>>,
    error: Seq<char>,
    n: nat,
) -> bool {
    forall|k: nat|
        k < n ==> !contains(error, on_line(name, #[trigger] spec_expr_line(file, k)))
            && !contains(error, on_line_start(name, spec_expr_line(file, k) + 1))
}

proof fn lemma_nothing_renamed(
    name: Seq<char>,
    file: Seq<char>,
    exprs: Seq<Seq<char>>,
    error: Seq<char>,
    n: nat,
)
    requires
        locates_no_expression(name, file, exprs, error, n),
    ensures
        explained_text(name, file, exprs, error, n) == error,
        location_notes(name, file, exprs, error, n) == Seq::<Seq<char>>::empty(),
        forall|k: nat| k < n ==> !is_located(name, file, exprs, error, k),
    decreases n,
{
    if n > 0 {
        let k = (n - 1) as nat;
        assert(locates_no_expression(name, file, exprs, error, k));
        lemma_nothing_renamed(name, file, exprs, error, k);
        let line = spec_expr_line(file, k);
        assert(!contains(error, on_line(name, line)));
        lemma_replace_not_contained(
            error,
            on_line_start(name, line + 1),
            eval_tag(k) + decimal(exprs[k as int].len() + 1) + ":"@,
        );
        lemma_replace_not_contained(error, on_line(name, line), eval_tag(k));
        assert(!is_located(name, file, exprs, error, k));
        assert(location_notes(name, file, exprs, error, n) =~= Seq::<Seq<char>>::empty());
    }
}

/// No note attributes `symbol` to an expression that does not use it.
proof fn lemma_no_symbol_notes(
    name: Seq<char>,
    file: Seq<char>,
    exprs: Seq<Seq<char>>,
    error: Seq<char>,
    symbol: Seq<char>,
    n: nat,
)
    requires
        n <= exprs.len(),
        forall|k: int| 0 <= k < n ==> !uses_identifier(#[trigger] exprs[k], symbol),
    ensures
        symbol_notes(name, file, exprs, error, symbol, n) == Seq::<Seq<char>>::empty(),
    decreases n,
{
    if n > 0 {
        let k = (n - 1) as nat;
        lemma_no_symbol_notes(name, file, exprs, error, symbol, k);
        assert(!uses_identifier(exprs[k as int], symbol));
        assert(symbol_notes(name, file, exprs, error, symbol, n) =~= Seq::<Seq<char>>::empty());
    }
}

impl EvalProgram {
    /// A diagnostic about the file itself is left as it is: one that locates
    /// nothing on an expression's lines, whose undefined symbol, if it names
    /// one, is no identifier of any expression, and that does not quote the
    /// wrapper, comes back from [`EvalProgram::explain`] unchanged.
    pub proof fn lemma_file_errors_kept(self, name: Seq<char>, error: Seq<char>)
        requires
            locates_no_expression(name, self.file_text(), self.expressions(), error, self.expressions().len()),
            spec_undefined_symbol(error) matches Some(symbol) ==> forall|k: int|
                0 <= k < self.expressions().len() ==> !uses_identifier(#[trigger] self.expressions()[k], symbol),
            !contains(error, "__faustprobe_env"@),
        ensures
            spec_explain(name, self.file_text(), self.expressions(), error) == error,
    {
        let f = self.file_text();
        let e = self.expressions();
        lemma_nothing_renamed(name, f, e, error, e.len());
        if let Some(symbol) = spec_undefined_symbol(error) {
            lemma_no_symbol_notes(name, f, e, error, symbol, e.len());
        }
        assert(explain_notes(name, f, e, error) =~= Seq::<Seq<char>>::empty());
    }
}

} // verus!

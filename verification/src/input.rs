//! What `--in` asks the program's inputs to be fed with, and whether an
//! impulse on one channel reaches an input the program has.
//!
//! The excitation itself (a sine's samples, a file's) is the host's: a
//! sine's frequency is kept here as the text it was given in.

use vstd::prelude::*;
use crate::text::{
    chars_of, decimal, owned, parse_u64, parse_usize, push_chars, push_decimal, push_str,
    same_text, spec_parse_u64, spec_parse_usize, string_of,
};

verus! {

/// An excitation as `--in` names it.
#[derive(Debug, Clone, PartialEq, Eq)]
pub enum InputSpec {
    /// Silence on every channel.
    Zero,
    /// A unit impulse on frame 0 of every input channel.
    Impulse,
    /// A unit impulse on frame 0 of one channel only.
    ImpulseChannel(usize),
    /// A constant 1.0 on every channel.
    Dc,
    /// Seeded uniform noise.
    White(u64),
    /// A full-scale sine, at the frequency this text gives.
    Sine(String),
    /// The channels of an audio file, or the one channel given.
    File(String, Option<usize>),
}

/// An excitation, with its texts as sequences of characters.
pub enum InputView {
    Zero,
    Impulse,
    ImpulseChannel(nat),
    Dc,
    White(nat),
    Sine(Seq<char>),
    File(Seq<char>, Option<nat>),
}

impl InputSpec {
    /// What the excitation is, its texts as sequences of characters.
    pub open spec fn view(&self) -> InputView {
        match self {
            InputSpec::Zero => InputView::Zero,
            InputSpec::Impulse => InputView::Impulse,
            InputSpec::ImpulseChannel(c) => InputView::ImpulseChannel(*c as nat),
            InputSpec::Dc => InputView::Dc,
            InputSpec::White(s) => InputView::White(*s as nat),
            InputSpec::Sine(t) => InputView::Sine(t@),
            InputSpec::File(p, c) => InputView::File(
                p@,
                match c {
                    Some(k) => Some(*k as nat),
                    None => None,
                },
            ),
        }
    }
}

/// The index of the first `c` in `s`.
pub open spec fn first_index(s: Seq<char>, c: char) -> Option<int> {
    if exists|i: int| 0 <= i < s.len() && s[i] == c {
        Some(choose|i: int| 0 <= i < s.len() && s[i] == c && forall|j: int| 0 <= j < i ==> s[j] != c)
    } else {
        None
    }
}

/// The index of the last `c` in `s`.
pub open spec fn last_index(s: Seq<char>, c: char) -> Option<int> {
    if exists|i: int| 0 <= i < s.len() && s[i] == c {
        Some(choose|i: int| 0 <= i < s.len() && s[i] == c && forall|j: int| i < j < s.len() ==> s[j] != c)
    } else {
        None
    }
}

/// The file and the channel of `--in file:REST`: a trailing `:N` is a
/// channel when `N` is a number, else part of the path.
pub open spec fn file_and_channel(rest: Seq<char>) -> (Seq<char>, Option<nat>) {
    match last_index(rest, ':') {
        Some(q) => match spec_parse_usize(rest.skip(q + 1)) {
            Some(n) => (rest.take(q), Some(n as nat)),
            None => (rest, None),
        },
        None => (rest, None),
    }
}

/// The mode of `--in TEXT` and, after the first `:`, its argument.
pub open spec fn split_mode(text: Seq<char>) -> (Seq<char>, Option<Seq<char>>) {
    match first_index(text, ':') {
        Some(p) => (text.take(p), Some(text.skip(p + 1))),
        None => (text, None),
    }
}

/// What a mode and its argument name; `text` is the whole value, for the
/// message that refuses it.
pub open spec fn spec_input_parts(head: Seq<char>, tail: Option<Seq<char>>, text: Seq<char>) -> Result<InputView, Seq<char>> {
    if head == "zero"@ && tail is None {
        Ok(InputView::Zero)
    } else if head == "impulse"@ && tail is None {
        Ok(InputView::Impulse)
    } else if head == "impulse"@ {
        match spec_parse_usize(tail->Some_0) {
            Some(c) => Ok(InputView::ImpulseChannel(c as nat)),
            None => Err("invalid channel in `--in impulse:"@ + tail->Some_0 + "`"@),
        }
    } else if head == "dc"@ && tail is None {
        Ok(InputView::Dc)
    } else if head == "white"@ && tail is None {
        Ok(InputView::White(0))
    } else if head == "white"@ {
        match spec_parse_u64(tail->Some_0) {
            Some(s) => Ok(InputView::White(s as nat)),
            None => Err("invalid seed in `--in white:"@ + tail->Some_0 + "`"@),
        }
    } else if head == "sine"@ && tail is Some {
        Ok(InputView::Sine(tail->Some_0))
    } else if head == "sine"@ {
        Err("`--in sine` needs a frequency, e.g. sine:440"@)
    } else if head == "file"@ && tail is Some {
        Ok(InputView::File(file_and_channel(tail->Some_0).0, file_and_channel(tail->Some_0).1))
    } else if head == "file"@ {
        Err("`--in file` needs a path, e.g. file:target.wav"@)
    } else {
        Err("unknown input mode `"@ + text + "`"@)
    }
}

/// What `--in TEXT` names: a mode, then after the first `:` its argument.
pub open spec fn spec_parse_input(text: Seq<char>) -> Result<InputView, Seq<char>> {
    spec_input_parts(split_mode(text).0, split_mode(text).1, text)
}

/// The first index of `c` in `s`.
fn find_first(s: &[char], c: char) -> (r: Option<usize>)
    ensures
        match first_index(s@, c) {
            Some(i) => r == Some(i as usize),
            None => r is None,
        },
        r matches Some(i) ==> i < s@.len() && first_index(s@, c) == Some(i as int),
{
    let mut i: usize = 0;
    while i < s.len()
        invariant
            i <= s.len(),
            forall|j: int| 0 <= j < i ==> s@[j] != c,
        decreases s.len() - i,
    {
        if s[i] == c {
            let ghost k = first_index(s@, c)->Some_0;
            assert(k == i as int) by {
                if k < i {
                } else if k > i {
                }
            }
            return Some(i);
        }
        i = i + 1;
    }
    None
}

/// The last index of `c` in `s`.
fn find_last(s: &[char], c: char) -> (r: Option<usize>)
    ensures
        match last_index(s@, c) {
            Some(i) => r == Some(i as usize),
            None => r is None,
        },
        r matches Some(i) ==> i < s@.len() && last_index(s@, c) == Some(i as int),
{
    let mut i: usize = s.len();
    while i > 0
        invariant
            i <= s.len(),
            forall|j: int| i <= j < s.len() ==> s@[j] != c,
        decreases i,
    {
        if s[i - 1] == c {
            let ghost k = last_index(s@, c)->Some_0;
            assert(k == i - 1) by {
                if k < i - 1 {
                } else if k > i - 1 {
                }
            }
            return Some(i - 1);
        }
        i = i - 1;
    }
    None
}

/// `s[from..to]`.
fn slice_chars(s: &[char], from: usize, to: usize) -> (r: Vec<char>)
    requires
        from <= to <= s@.len(),
    ensures
        r@ == s@.subrange(from as int, to as int),
{
    let mut out: Vec<char> = Vec::new();
    let mut k: usize = from;
    while k < to
        invariant
            from <= k <= to,
            to <= s@.len(),
            out@ == s@.subrange(from as int, k as int),
        decreases to - k,
    {
        out.push(s[k]);
        k = k + 1;
        assert(out@ =~= s@.subrange(from as int, k as int));
    }
    out
}

/// The message of an argument that is not what its mode takes: `prefix`,
/// the argument, and a closing backquote.
fn invalid(prefix: &str, arg: &[char]) -> (r: String)
    ensures
        r@ == prefix@ + arg@ + "`"@,
{
    let mut v: Vec<char> = Vec::new();
    push_str(&mut v, prefix);
    push_chars(&mut v, arg);
    push_str(&mut v, "`");
    string_of(&v)
}

/// The view of an optional argument.
pub open spec fn opt_chars(t: Option<Vec<char>>) -> Option<Seq<char>> {
    match t {
        Some(v) => Some(v@),
        None => None,
    }
}

/// What a mode and its argument name.
fn input_parts(head: &[char], tail: Option<Vec<char>>, s: &[char]) -> (r: Result<InputSpec, String>)
    ensures
        match spec_input_parts(head@, opt_chars(tail), s@) {
            Ok(v) => r is Ok && r->Ok_0.view() == v,
            Err(e) => r is Err && r->Err_0@ == e,
        },
{
    let zero = same_text(head, "zero");
    let impulse = same_text(head, "impulse");
    let dc = same_text(head, "dc");
    let white = same_text(head, "white");
    let sine = same_text(head, "sine");
    let file = same_text(head, "file");
    match &tail {
        None => {
            if zero {
                Ok(InputSpec::Zero)
            } else if impulse {
                Ok(InputSpec::Impulse)
            } else if dc {
                Ok(InputSpec::Dc)
            } else if white {
                Ok(InputSpec::White(0))
            } else if sine {
                Err(owned("`--in sine` needs a frequency, e.g. sine:440"))
            } else if file {
                Err(owned("`--in file` needs a path, e.g. file:target.wav"))
            } else {
                Err(unknown_mode(s))
            }
        },
        Some(arg) => {
            if impulse {
                match parse_usize(arg) {
                    Some(c) => Ok(InputSpec::ImpulseChannel(c)),
                    None => Err(invalid("invalid channel in `--in impulse:", arg)),
                }
            } else if white {
                match parse_u64(arg) {
                    Some(seed) => Ok(InputSpec::White(seed)),
                    None => Err(invalid("invalid seed in `--in white:", arg)),
                }
            } else if sine {
                Ok(InputSpec::Sine(string_of(arg)))
            } else if file {
                let (path, channel) = file_and_channel_chars(arg);
                Ok(InputSpec::File(string_of(&path), channel))
            } else {
                Err(unknown_mode(s))
            }
        },
    }
}

/// Parses an `--in` value: `zero`, `impulse[:CH]`, `dc`, `white[:SEED]`,
/// `sine:HZ` or `file:PATH[:CH]`.
///
/// # Errors
/// An unknown mode, a mode without the argument it needs, or a channel or
/// seed that is not a number.
pub fn parse_input(text: &str) -> (r: Result<InputSpec, String>)
    ensures
        match spec_parse_input(text@) {
            Ok(v) => r is Ok && r->Ok_0.view() == v,
            Err(e) => r is Err && r->Err_0@ == e,
        },
{
    let s = chars_of(text);
    let n = s.len();
    match find_first(&s, ':') {
        Some(p) => {
            let head = slice_chars(&s, 0, p);
            let tail = slice_chars(&s, p + 1, n);
            assert(head@ =~= s@.take(p as int));
            assert(tail@ =~= s@.skip(p + 1));
            input_parts(&head, Some(tail), &s)
        },
        None => {
            assert(s@.subrange(0, n as int) =~= s@);
            let head = slice_chars(&s, 0, n);
            input_parts(&head, None, &s)
        },
    }
}

/// Why a mode is refused.
fn unknown_mode(s: &[char]) -> (r: String)
    ensures
        r@ == "unknown input mode `"@ + s@ + "`"@,
{
    let mut v: Vec<char> = Vec::new();
    push_str(&mut v, "unknown input mode `");
    push_chars(&mut v, s);
    push_str(&mut v, "`");
    string_of(&v)
}

/// The file and the channel of `--in file:REST`.
fn file_and_channel_chars(rest: &[char]) -> (r: (Vec<char>, Option<usize>))
    ensures
        r.0@ == file_and_channel(rest@).0,
        match file_and_channel(rest@).1 {
            Some(n) => r.1 == Some(n as usize),
            None => r.1 is None,
        },
{
    let n = rest.len();
    match find_last(rest, ':') {
        Some(q) => {
            let ch = slice_chars(rest, q + 1, rest.len());
            assert(ch@ =~= rest@.skip(q + 1));
            match parse_usize(&ch) {
                Some(n) => {
                    let path = slice_chars(rest, 0, q);
                    assert(path@ =~= rest@.take(q as int));
                    (path, Some(n))
                },
                None => (slice_chars(rest, 0, rest.len()), None),
            }
        },
        None => (slice_chars(rest, 0, rest.len()), None),
    }
}

/// `file:REST` is the mode `file` with the argument `REST`.
proof fn lemma_split_file(rest: Seq<char>)
    ensures
        split_mode("file:"@ + rest) == ("file"@, Some(rest)),
{
    reveal_strlit("file:");
    reveal_strlit("file");
    let text = "file:"@ + rest;
    assert(text[4] == ':');
    let p = first_index(text, ':')->Some_0;
    assert(p == 4) by {
        if p < 4 {
            assert(text[p] == "file:"@[p]);
        }
    }
    assert(text.take(4) =~= "file"@);
    assert(text.skip(5) =~= rest);
}

/// The mode `file` with an argument names a file, whatever the argument.
proof fn lemma_file_mode(tail: Seq<char>, text: Seq<char>)
    ensures
        spec_input_parts("file"@, Some(tail), text) == Ok::<InputView, Seq<char>>(
            InputView::File(file_and_channel(tail).0, file_and_channel(tail).1),
        ),
{
    reveal_strlit("file");
    reveal_strlit("zero");
    reveal_strlit("impulse");
    reveal_strlit("dc");
    reveal_strlit("white");
    reveal_strlit("sine");
    assert("file"@[0] != "zero"@[0]);
    assert("file"@.len() != "impulse"@.len());
    assert("file"@.len() != "dc"@.len());
    assert("file"@.len() != "white"@.len());
    assert("file"@[0] != "sine"@[0]);
}

/// What `last_index` finds: an occurrence with none after it, or none at
/// all.
proof fn lemma_last_index(s: Seq<char>, c: char)
    ensures
        match last_index(s, c) {
            Some(q) => 0 <= q < s.len() && s[q] == c && forall|j: int| q < j < s.len() ==> s[j] != c,
            None => !s.contains(c),
        },
{
    if exists|i: int| 0 <= i < s.len() && s[i] == c {
        let i = choose|i: int| 0 <= i < s.len() && s[i] == c;
        lemma_last_exists(s, c, i);
    }
}

/// From an occurrence of `c` on, there is a last one.
proof fn lemma_last_exists(s: Seq<char>, c: char, i: int)
    requires
        0 <= i < s.len(),
        s[i] == c,
    ensures
        exists|k: int| 0 <= k < s.len() && s[k] == c && forall|j: int| k < j < s.len() ==> s[j] != c,
    decreases s.len() - i,
{
    if exists|m: int| i < m < s.len() && s[m] == c {
        let m = choose|m: int| i < m < s.len() && s[m] == c;
        lemma_last_exists(s, c, m);
    } else {
        assert(forall|j: int| i < j < s.len() ==> s[j] != c);
    }
}

/// The channel of `file:REST` is a number only when `REST` ends with `:`
/// and its text, the path being what precedes that `:`; else `REST` is the
/// path.
proof fn lemma_file_and_channel(rest: Seq<char>)
    ensures
        match file_and_channel(rest).1 {
            None => file_and_channel(rest).0 == rest,
            Some(n) => exists|d: Seq<char>|
                rest == file_and_channel(rest).0 + ":"@ + d && !d.contains(':') && #[trigger] spec_parse_usize(d)
                    == Some(n as usize),
        },
        !rest.contains(':') ==> file_and_channel(rest) == (rest, None::<nat>),
{
    reveal_strlit(":");
    lemma_last_index(rest, ':');
    match last_index(rest, ':') {
        Some(q) => {
            let d = rest.skip(q + 1);
            if let Some(n) = spec_parse_usize(d) {
                assert(rest =~= rest.take(q) + ":"@ + d);
                assert(!d.contains(':')) by {
                    if d.contains(':') {
                        let i = choose|i: int| 0 <= i < d.len() && d[i] == ':';
                        assert(d[i] == rest[q + 1 + i]);
                    }
                }
            }
            assert(rest.contains(':')) by {
                assert(rest[q] == ':');
            }
        },
        None => {},
    }
}

/// `--in file:REST` always names a file. Its channel is a number only when
/// `REST` ends with `:` and the text of that number, the path then being
/// what precedes that `:`; otherwise the whole of `REST` is the path, and
/// every channel of the file is fed. In particular a `REST` without `:`
/// gives no channel.
pub proof fn lemma_file_channel(rest: Seq<char>)
    ensures
        spec_parse_input("file:"@ + rest) matches Ok(InputView::File(path, channel)) && (match channel {
            None => path == rest,
            Some(n) => exists|d: Seq<char>|
                rest == path + ":"@ + d && !d.contains(':') && #[trigger] spec_parse_usize(d) == Some(n as usize),
        }),
        !rest.contains(':') ==> spec_parse_input("file:"@ + rest) == Ok::<InputView, Seq<char>>(InputView::File(rest, None)),
{
    lemma_split_file(rest);
    lemma_file_mode(rest, "file:"@ + rest);
    lemma_file_and_channel(rest);
}

/// A path and a trailing `:N`, with no `:` in `N` and `N` a number, give
/// that path and channel `N`.
pub proof fn lemma_file_trailing_channel(path: Seq<char>, d: Seq<char>)
    requires
        !d.contains(':'),
        spec_parse_usize(d) is Some,
    ensures
        spec_parse_input("file:"@ + path + ":"@ + d) == Ok::<InputView, Seq<char>>(
            InputView::File(path, Some(spec_parse_usize(d)->Some_0 as nat)),
        ),
{
    reveal_strlit(":");
    let rest = path + ":"@ + d;
    assert("file:"@ + path + ":"@ + d =~= "file:"@ + rest);
    lemma_split_file(rest);
    lemma_file_mode(rest, "file:"@ + rest);
    let q = path.len() as int;
    assert(rest[q] == ':');
    lemma_last_index(rest, ':');
    let l = last_index(rest, ':')->Some_0;
    assert(l == q) by {
        if l > q {
            assert(d[l - q - 1] == rest[l]);
            assert(d.contains(':'));
        }
    }
    assert(rest.skip(q + 1) =~= d);
    assert(rest.take(q) =~= path);
}

/// What is said of an impulse on a channel the program does not have.
pub open spec fn impulse_channel_error(channel: nat, inputs: nat) -> Seq<char> {
    "--in impulse:"@ + decimal(channel) + ": "@ + if inputs == 0 {
        "the program has no input"@
    } else if inputs == 1 {
        "the program has one input, channel 0"@
    } else {
        "the program has "@ + decimal(inputs) + " inputs, channels 0 to "@ + decimal(
            (inputs - 1) as nat,
        )
    }
}

/// An impulse on an input the program does not have excites nothing, and
/// the silence that follows does not say why: it is an error, worded the
/// same in every mode.
///
/// # Errors
/// When `channel` is not below `inputs`, says how many inputs there are.
pub fn check_impulse_channel(channel: usize, inputs: usize) -> (r: Result<(), String>)
    ensures
        channel < inputs ==> r is Ok,
        channel >= inputs ==> r is Err && r->Err_0@ == impulse_channel_error(channel as nat, inputs as nat),
{
    if channel < inputs {
        return Ok(());
    }
    let mut v: Vec<char> = Vec::new();
    push_str(&mut v, "--in impulse:");
    push_decimal(&mut v, channel);
    push_str(&mut v, ": ");
    if inputs == 0 {
        push_str(&mut v, "the program has no input");
    } else if inputs == 1 {
        push_str(&mut v, "the program has one input, channel 0");
    } else {
        push_str(&mut v, "the program has ");
        push_decimal(&mut v, inputs);
        push_str(&mut v, " inputs, channels 0 to ");
        push_decimal(&mut v, inputs - 1);
    }
    Err(string_of(&v))
}

} // verus!

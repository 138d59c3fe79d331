//! The checks that precede a frequency response: what they are called, the
//! delay of the time-invariance check, and the text of a violation.
//!
//! A response is only a transfer function when the program is linear and
//! time-invariant; the three properties below are checked on impulses before
//! anything is transformed. The arithmetic on samples is the host's.

use vstd::prelude::*;
use crate::cli::{
    first_given, lemma_first_given, refuse, spec_verification_requested, verification_requested, Format, ModeFlags,
};
use crate::text::{decimal, push_decimal, push_str, string_of};

verus! {

/// The delay of the time-invariance check: 37, which no block size divides,
/// or a quarter of a short window, and never less than one frame.
pub open spec fn spec_shift_for(frames: nat) -> nat {
    let quarter = frames / 4;
    let capped = if quarter < 37 { quarter } else { 37 };
    if capped < 1 { 1 } else { capped }
}

/// The delay of the time-invariance check for a window of `frames`: 37, which
/// no block size divides, or a quarter of a short window.
pub fn shift_for(frames: usize) -> (shift: usize)
    ensures
        shift as nat == spec_shift_for(frames as nat),
        1 <= shift <= 37,
{
    let quarter = frames / 4;
    let capped = if quarter < 37 { quarter } else { 37 };
    if capped < 1 { 1 } else { capped }
}

/// One of the three properties checked before a response is transformed.
#[derive(Debug, Clone, Copy, PartialEq, Eq, Structural)]
pub enum Property {
    Homogeneity,
    TimeInvariance,
    Superposition,
}

/// The key of a property in the JSON document and in the report.
pub open spec fn spec_name(p: Property) -> Seq<char> {
    match p {
        Property::Homogeneity => "homogeneity"@,
        Property::TimeInvariance => "time_invariance"@,
        Property::Superposition => "superposition"@,
    }
}

/// What a check found false: `at` is the frame of the unit impulse, `shift`
/// the delay of the second one.
pub open spec fn spec_violation(p: Property, at: nat, shift: nat) -> Seq<char> {
    match p {
        Property::Homogeneity => "homogeneity: the response to an impulse of -0.5 is not -0.5 times the response to an impulse of 1"@,
        Property::TimeInvariance => "time invariance: the response to an impulse at frame "@
            + decimal(at + shift) + " is not the response to an impulse at frame "@ + decimal(at)
            + ", "@ + decimal(shift) + " frames later"@,
        Property::Superposition => "superposition: the response to impulses of 1 at frame "@
            + decimal(at) + " and 0.5 at frame "@ + decimal(at + 1)
            + " is not the sum of their responses"@,
    }
}

/// What usually explains a violation.
pub open spec fn spec_usual_cause(p: Property) -> Seq<char> {
    match p {
        Property::Homogeneity => "a saturation, a rectifier, a threshold, or an output that does not come from the input"@,
        Property::TimeInvariance => "a modulation (an LFO on a coefficient, a tremolo), an envelope, a noise source"@,
        Property::Superposition => "a rank-order operation (median, min, max) over neighbouring samples"@,
    }
}

impl Property {
    /// In the order they are checked: the first failure names the defect.
    pub const ALL: [Property; 3] = [
        Property::Homogeneity,
        Property::TimeInvariance,
        Property::Superposition,
    ];

    /// The key of the property in the JSON document and in the report.
    pub fn name(self) -> (r: &'static str)
        ensures
            r@ == spec_name(self),
    {
        match self {
            Property::Homogeneity => "homogeneity",
            Property::TimeInvariance => "time_invariance",
            Property::Superposition => "superposition",
        }
    }

    /// What the check found false, for the error: `at` is the frame of the
    /// unit impulse (`--settle`), `shift` the delay of the second one.
    pub fn violation(self, at: usize, shift: usize) -> (r: String)
        requires
            self == Property::TimeInvariance ==> at + shift <= usize::MAX,
            self == Property::Superposition ==> at + 1 <= usize::MAX,
        ensures
            r@ == spec_violation(self, at as nat, shift as nat),
    {
        let mut v: Vec<char> = Vec::new();
        match self {
            Property::Homogeneity => {
                push_str(&mut v, "homogeneity: the response to an impulse of -0.5 is not -0.5 times the response to an impulse of 1");
            },
            Property::TimeInvariance => {
                push_str(&mut v, "time invariance: the response to an impulse at frame ");
                push_decimal(&mut v, at + shift);
                push_str(&mut v, " is not the response to an impulse at frame ");
                push_decimal(&mut v, at);
                push_str(&mut v, ", ");
                push_decimal(&mut v, shift);
                push_str(&mut v, " frames later");
            },
            Property::Superposition => {
                push_str(&mut v, "superposition: the response to impulses of 1 at frame ");
                push_decimal(&mut v, at);
                push_str(&mut v, " and 0.5 at frame ");
                push_decimal(&mut v, at + 1);
                push_str(&mut v, " is not the sum of their responses");
            },
        }
        string_of(&v)
    }

    /// What usually explains the violation.
    pub fn usual_cause(self) -> (r: &'static str)
        ensures
            r@ == spec_usual_cause(self),
    {
        match self {
            Property::Homogeneity => "a saturation, a rectifier, a threshold, or an output that does not come from the input",
            Property::TimeInvariance => "a modulation (an LFO on a coefficient, a tremolo), an envelope, a noise source",
            Property::Superposition => "a rank-order operation (median, min, max) over neighbouring samples",
        }
    }
}

/// How many flags a frequency response refuses.
pub const FREQRESP_REFUSED: usize = 10;

/// The `k`th flag that `--freqresp` does not take, with why, and whether it
/// was given.
pub open spec fn freqresp_entry(f: ModeFlags, k: usize) -> ((&'static str, &'static str), bool) {
    match k {
        0 => (("--reduce", "the response is the reduction"), f.reduce is Some),
        1 => (
            ("--at", "a control that changes during the response makes the program time-varying"),
            f.ats@.len() > 0,
        ),
        2 => (("--note/--chord", "they drive the polyphonic wrapper"), f.notes@.len() > 0 || f.chords@.len() > 0),
        3 => (("--skip", "the transform is that of the whole response, from frame 0"), f.skip != 0),
        4 => (("--every", "the rows are frequencies, not frames"), f.every != 1),
        5 => (("--bargraphs", "the rows are frequencies, not frames"), f.bargraphs),
        6 => (("--out", "a plain render writes the impulse response"), f.out is Some),
        7 => (("--fail-above", "it gates a plain render"), f.fail_above),
        8 => (("--compare/--ref/--check", "they look at the samples of a plain render"), spec_verification_requested(f)),
        _ => (("--format ir", "`.ir` holds frames"), f.format == Format::Ir),
    }
}

/// The flags that `--freqresp` does not take, in order, each with why and
/// whether it was given.
pub open spec fn freqresp_table(f: ModeFlags) -> Seq<((&'static str, &'static str), bool)> {
    Seq::new(FREQRESP_REFUSED as nat, |k: int| freqresp_entry(f, k as usize))
}

/// What refuses `flag` beside `--freqresp`, and why.
pub open spec fn freqresp_refusal(flag: &'static str, why: &'static str) -> Seq<char> {
    flag@ + " cannot be combined with --freqresp: "@ + why@
}

/// `freqresp_entry`, computed.
fn freqresp_entry_of(flags: &ModeFlags, k: usize) -> (e: ((&'static str, &'static str), bool))
    requires
        k < FREQRESP_REFUSED,
    ensures
        e == freqresp_entry(*flags, k),
{
    match k {
        0 => (("--reduce", "the response is the reduction"), flags.reduce.is_some()),
        1 => (
            ("--at", "a control that changes during the response makes the program time-varying"),
            flags.ats.len() > 0,
        ),
        2 => (
            ("--note/--chord", "they drive the polyphonic wrapper"),
            flags.notes.len() > 0 || flags.chords.len() > 0,
        ),
        3 => (("--skip", "the transform is that of the whole response, from frame 0"), flags.skip != 0),
        4 => (("--every", "the rows are frequencies, not frames"), flags.every != 1),
        5 => (("--bargraphs", "the rows are frequencies, not frames"), flags.bargraphs),
        6 => (("--out", "a plain render writes the impulse response"), flags.out.is_some()),
        7 => (("--fail-above", "it gates a plain render"), flags.fail_above),
        8 => (
            ("--compare/--ref/--check", "they look at the samples of a plain render"),
            verification_requested(flags),
        ),
        _ => (("--format ir", "`.ir` holds frames"), flags.format == Format::Ir),
    }
}

/// Refuses what a frequency response does not take, saying why: a flag it
/// would otherwise ignore is an error.
///
/// # Errors
/// The first flag of `freqresp_table` that was given.
pub fn refuse_flags(flags: &ModeFlags) -> (r: Result<(), String>)
    ensures
        match first_given(freqresp_table(*flags)) {
            None => r is Ok,
            Some(entry) => r is Err && r->Err_0@ == freqresp_refusal(entry.0, entry.1),
        },
{
    let ghost table = freqresp_table(*flags);
    let mut t: Vec<((&'static str, &'static str), bool)> = Vec::new();
    let mut k: usize = 0;
    while k < FREQRESP_REFUSED
        invariant
            k <= FREQRESP_REFUSED,
            table == freqresp_table(*flags),
            t@ =~= table.take(k as int),
        decreases FREQRESP_REFUSED - k,
    {
        t.push(freqresp_entry_of(flags, k));
        assert(table.take(k + 1) =~= table.take(k as int).push(table[k as int]));
        k = k + 1;
    }
    assert(table.take(k as int) =~= table);
    let message = |entry: (&'static str, &'static str)| -> (m: String)
        ensures
            m@ == freqresp_refusal(entry.0, entry.1),
        {
            let mut v: Vec<char> = Vec::new();
            push_str(&mut v, entry.0);
            push_str(&mut v, " cannot be combined with --freqresp: ");
            push_str(&mut v, entry.1);
            string_of(&v)
        };
    let r = refuse(t.as_slice(), message);
    proof {
        if r is Ok {
            lemma_first_given(t@, t@.len() as int);
        } else {
            let i = choose|i: int|
                0 <= i < t@.len() && (#[trigger] t@[i]).1 && (forall|j: int| 0 <= j < i ==> !t@[j].1)
                    && message.ensures((t@[i].0,), r->Err_0);
            lemma_first_given(t@, i);
        }
    }
    r
}

} // verus!

//! What a training reports beside its numbers: on which bound of its range
//! the projection held a control, and whether the loss and gradient lanes
//! fit the program's outputs.
//!
//! The descent itself works on floats and is the host's.

use vstd::prelude::*;
use crate::cli::{
    first_given, refuse_flag, spec_verification_requested, verification_requested, Format, ModeFlags, Protocol,
};
use crate::text::{chars_of, decimal, join, join_chars, owned, push_chars, push_decimal, push_str, string_of};

verus! {

/// Which end of its range a control sits on.
#[derive(Clone, Copy, Debug, PartialEq, Eq, Structural)]
pub enum Bound {
    Lower,
    Upper,
}

/// `lower` or `upper`.
pub open spec fn spec_bound_name(b: Bound) -> Seq<char> {
    match b {
        Bound::Lower => "lower"@,
        Bound::Upper => "upper"@,
    }
}

impl Bound {
    /// `lower` or `upper`.
    pub fn name(self) -> (r: &'static str)
        ensures
            r@ == spec_bound_name(self),
    {
        match self {
            Bound::Lower => "lower",
            Bound::Upper => "upper",
        }
    }
}

/// How often the projection onto its range held a control on a bound.
#[derive(Clone, Copy, Debug, PartialEq, Eq, Structural)]
pub struct BoundStats {
    /// Blocks whose step left the control on its lower bound.
    pub on_lower: usize,
    /// Blocks whose step left the control on its upper bound.
    pub on_upper: usize,
    /// The bound the control is on after the last step.
    pub ends_on: Option<Bound>,
}

impl Default for BoundStats {
    fn default() -> (s: Self)
        ensures
            s == (BoundStats { on_lower: 0, on_upper: 0, ends_on: None }),
    {
        BoundStats { on_lower: 0, on_upper: 0, ends_on: None }
    }
}

/// What is said of one bound that held the control for `count` of `blocks`
/// blocks.
pub open spec fn bound_part(bound: Bound, count: nat, blocks: nat, ends_on: Option<Bound>) -> Seq<char> {
    "on its "@ + spec_bound_name(bound) + " bound for "@ + decimal(count) + " of "@ + decimal(blocks)
        + " blocks, "@ + if ends_on == Some(bound) {
        "the last one included"@
    } else {
        "not the last one"@
    }
}

/// What is said of each bound that held the control at least once, lower
/// first.
pub open spec fn bound_parts(stats: BoundStats, blocks: nat) -> Seq<Seq<char>> {
    let lower: Seq<Seq<char>> = if stats.on_lower > 0 {
        seq![bound_part(Bound::Lower, stats.on_lower as nat, blocks, stats.ends_on)]
    } else {
        Seq::empty()
    };
    let upper: Seq<Seq<char>> = if stats.on_upper > 0 {
        seq![bound_part(Bound::Upper, stats.on_upper as nat, blocks, stats.ends_on)]
    } else {
        Seq::empty()
    };
    lower + upper
}

/// The note on a control's bounds: nothing when the projection never held
/// it, else what was said of each bound, joined by `; `.
pub open spec fn spec_bound_text(stats: BoundStats, blocks: nat) -> Option<Seq<char>> {
    if bound_parts(stats, blocks).len() == 0 {
        None
    } else {
        Some(join(bound_parts(stats, blocks), "; "@))
    }
}

/// One part of the note, in characters.
fn bound_part_chars(bound: Bound, count: usize, blocks: usize, ends_on: Option<Bound>) -> (v: Vec<char>)
    ensures
        v@ == bound_part(bound, count as nat, blocks as nat, ends_on),
{
    let mut v: Vec<char> = Vec::new();
    push_str(&mut v, "on its ");
    push_str(&mut v, bound.name());
    push_str(&mut v, " bound for ");
    push_decimal(&mut v, count);
    push_str(&mut v, " of ");
    push_decimal(&mut v, blocks);
    push_str(&mut v, " blocks, ");
    let last = match ends_on {
        Some(b) => b == bound,
        None => false,
    };
    if last {
        push_str(&mut v, "the last one included");
    } else {
        push_str(&mut v, "not the last one");
    }
    v
}

/// The note on a control that the projection held on a bound of its range:
/// for how many of the `blocks` blocks, on which bound, and whether the last
/// one. `None` when it never did.
pub fn bound_text(stats: &BoundStats, blocks: usize) -> (r: Option<String>)
    ensures
        match spec_bound_text(*stats, blocks as nat) {
            Some(t) => r is Some && r->Some_0@ == t,
            None => r is None,
        },
{
    let mut parts: Vec<Vec<char>> = Vec::new();
    if stats.on_lower > 0 {
        parts.push(bound_part_chars(Bound::Lower, stats.on_lower, blocks, stats.ends_on));
    }
    if stats.on_upper > 0 {
        parts.push(bound_part_chars(Bound::Upper, stats.on_upper, blocks, stats.ends_on));
    }
    assert(parts@.map_values(|v: Vec<char>| v@) =~= bound_parts(*stats, blocks as nat));
    if parts.len() == 0 {
        return None;
    }
    let mut sep: Vec<char> = Vec::new();
    push_str(&mut sep, "; ");
    let text = join_chars(&parts, &sep);
    Some(string_of(&text))
}

/// Why the lanes do not fit a program with `outputs` outputs.
pub open spec fn lanes_error(outputs: nat, loss_lane: nat, first_grad_lane: nat, needed: nat) -> Seq<char> {
    "the program has "@ + decimal(outputs) + " outputs: the loss lane "@ + decimal(loss_lane)
        + " and the gradient lanes "@ + decimal(first_grad_lane) + ".."@ + decimal(
        (needed - 1) as nat,
    ) + " do not fit"@
}

/// Whether the loss lane and the `params` gradient lanes from
/// `first_grad_lane` on are outputs of a program with `outputs` outputs.
///
/// # Errors
/// Names the lanes and the number of outputs when they do not fit.
pub fn check_lanes(outputs: usize, loss_lane: usize, first_grad_lane: usize, params: usize) -> (r: Result<(), String>)
    requires
        first_grad_lane + params <= usize::MAX,
        first_grad_lane + params == 0 ==> loss_lane < outputs,
    ensures
        (loss_lane < outputs && first_grad_lane + params <= outputs) ==> r is Ok,
        !(loss_lane < outputs && first_grad_lane + params <= outputs) ==> r is Err && r->Err_0@
            == lanes_error(outputs as nat, loss_lane as nat, first_grad_lane as nat, (first_grad_lane + params) as nat),
{
    let needed = first_grad_lane + params;
    if loss_lane >= outputs || needed > outputs {
        let mut v: Vec<char> = Vec::new();
        push_str(&mut v, "the program has ");
        push_decimal(&mut v, outputs);
        push_str(&mut v, " outputs: the loss lane ");
        push_decimal(&mut v, loss_lane);
        push_str(&mut v, " and the gradient lanes ");
        push_decimal(&mut v, first_grad_lane);
        push_str(&mut v, "..");
        push_decimal(&mut v, needed - 1);
        push_str(&mut v, " do not fit");
        return Err(string_of(&v));
    }
    Ok(())
}

/// What a query found among a program's controls: the exact path of the one
/// control it names, none, or the paths of all those it could name.
#[derive(Clone, Debug, PartialEq, Eq)]
pub enum Resolution {
    Unique(String),
    NotFound,
    Ambiguous(Vec<String>),
}

/// The path a resolution found, or why `query` names no single control.
pub open spec fn spec_resolve_path(resolution: Resolution, query: Seq<char>) -> Result<Seq<char>, Seq<char>> {
    match resolution {
        Resolution::Unique(path) => Ok(path@),
        Resolution::NotFound => Err("no control matching `"@ + query + "`"@),
        Resolution::Ambiguous(candidates) => Err(
            "`"@ + query + "` is ambiguous, matches: "@ + join(
                candidates@.map_values(|c: String| c@),
                ", "@,
            ),
        ),
    }
}

/// The exact path of the control that `query` names, given what the query
/// found among the controls.
///
/// # Errors
/// When it names none, or several: the message then lists those.
pub fn resolve_path(resolution: &Resolution, query: &str) -> (r: Result<String, String>)
    ensures
        match spec_resolve_path(*resolution, query@) {
            Ok(path) => r is Ok && r->Ok_0@ == path,
            Err(e) => r is Err && r->Err_0@ == e,
        },
{
    match resolution {
        Resolution::Unique(path) => Ok(owned(path.as_str())),
        Resolution::NotFound => {
            let mut v: Vec<char> = Vec::new();
            push_str(&mut v, "no control matching `");
            push_str(&mut v, query);
            push_str(&mut v, "`");
            Err(string_of(&v))
        },
        Resolution::Ambiguous(candidates) => {
            let mut parts: Vec<Vec<char>> = Vec::new();
            let mut i: usize = 0;
            while i < candidates.len()
                invariant
                    i <= candidates.len(),
                    parts@.map_values(|v: Vec<char>| v@) == candidates@.take(i as int).map_values(
                        |c: String| c@,
                    ),
                decreases candidates.len() - i,
            {
                let ghost before = parts@;
                let c = chars_of(candidates[i].as_str());
                parts.push(c);
                assert(parts@ == before.push(c));
                assert(c@ == candidates@[i as int]@);
                assert(parts@.map_values(|v: Vec<char>| v@) =~= before.map_values(|v: Vec<char>| v@).push(c@));
                assert(candidates@.take(i + 1) == candidates@.take(i as int).push(candidates@[i as int]));
                assert(parts@.map_values(|v: Vec<char>| v@) =~= candidates@.take(i + 1).map_values(
                    |c: String| c@,
                ));
                i = i + 1;
            }
            assert(candidates@.take(i as int) == candidates@);
            let mut sep: Vec<char> = Vec::new();
            push_str(&mut sep, ", ");
            let mut v: Vec<char> = Vec::new();
            push_str(&mut v, "`");
            push_str(&mut v, query);
            push_str(&mut v, "` is ambiguous, matches: ");
            let listed = join_chars(&parts, &sep);
            push_chars(&mut v, &listed);
            Err(string_of(&v))
        },
    }
}

/// How many flags a training refuses.
pub const TRAIN_REFUSED: usize = 9;

/// The `k`th flag that a training's host loop does not take, with whether
/// it was given.
pub open spec fn train_entry(f: ModeFlags, k: usize) -> (&'static str, bool) {
    match k {
        0 => ("--reduce", f.reduce is Some),
        1 => ("--at", f.ats@.len() > 0),
        2 => ("--bargraphs", f.bargraphs),
        3 => ("--protocol impulse-test", f.protocol == Protocol::ImpulseTest),
        4 => ("--format ir", f.format == Format::Ir),
        5 => ("--out", f.out is Some),
        6 => ("--fail-above", f.fail_above),
        7 => ("--compare/--ref/--check", spec_verification_requested(f)),
        _ => ("--freqresp", f.freqresp is Some),
    }
}

/// The flags that `--train` and `--fd-check` do not take, in order, each
/// with whether it was given.
pub open spec fn train_table(f: ModeFlags) -> Seq<(&'static str, bool)> {
    Seq::new(TRAIN_REFUSED as nat, |k: int| train_entry(f, k as usize))
}

/// `train_entry`, computed.
fn train_entry_of(flags: &ModeFlags, k: usize) -> (e: (&'static str, bool))
    requires
        k < TRAIN_REFUSED,
    ensures
        e == train_entry(*flags, k),
{
    match k {
        0 => ("--reduce", flags.reduce.is_some()),
        1 => ("--at", flags.ats.len() > 0),
        2 => ("--bargraphs", flags.bargraphs),
        3 => ("--protocol impulse-test", flags.protocol == Protocol::ImpulseTest),
        4 => ("--format ir", flags.format == Format::Ir),
        5 => ("--out", flags.out.is_some()),
        6 => ("--fail-above", flags.fail_above),
        7 => ("--compare/--ref/--check", verification_requested(flags)),
        _ => ("--freqresp", flags.freqresp.is_some()),
    }
}

/// Refuses what a training's host loop does not take: a flag it would
/// otherwise ignore is an error.
///
/// # Errors
/// The first flag of `train_table` that was given.
pub fn refuse_flags(flags: &ModeFlags) -> (r: Result<(), String>)
    ensures
        match first_given(train_table(*flags)) {
            None => r is Ok,
            Some(flag) => r is Err && r->Err_0@ == flag@ + " cannot be combined with --train / --fd-check"@,
        },
{
    let ghost table = train_table(*flags);
    let mut t: Vec<(&'static str, bool)> = Vec::new();
    let mut k: usize = 0;
    while k < TRAIN_REFUSED
        invariant
            k <= TRAIN_REFUSED,
            table == train_table(*flags),
            t@ =~= table.take(k as int),
        decreases TRAIN_REFUSED - k,
    {
        t.push(train_entry_of(flags, k));
        assert(table.take(k + 1) =~= table.take(k as int).push(table[k as int]));
        k = k + 1;
    }
    assert(table.take(k as int) =~= table);
    refuse_flag(t.as_slice(), " cannot be combined with --train / --fd-check")
}

} // verus!

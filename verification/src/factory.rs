//! The identity of a compiled factory in the cache: the compiler arguments
//! spelled so that two spellings of one option give one identity.
//!
//! `-ss N` is a scheduling strategy: 0 depth-first, 1 breadth-first, 2
//! interleaved, 3 and above reverse breadth-first, so every value from 3 on
//! is the same option. `-mem`, `-mem0`, `--memory-manager` and
//! `--memory-manager0` are four spellings of one flag, and the flag given
//! twice is the flag given once.

use vstd::prelude::*;
use crate::text::{all_digits, chars_of, decimal, decimal_value, digit_char, digit_value, owned, parse_usize, same_text, spec_parse_usize, string_of, decimal_text};

verus! {

/// What the factory runtime calls itself.
pub open spec fn spec_factory_status() -> Seq<char> {
    "cranelift-ffi factory runtime"@
}

/// What the factory runtime calls itself.
pub fn factory_status() -> (r: &'static str)
    ensures
        r@ == spec_factory_status(),
{
    "cranelift-ffi factory runtime"
}

/// Whether `t` spells the flag that asks for a host memory manager.
pub open spec fn is_mem0_alias(t: Seq<char>) -> bool {
    ||| t == "-mem"@
    ||| t == "-mem0"@
    ||| t == "--memory-manager"@
    ||| t == "--memory-manager0"@
}

/// The value of `-ss` as the strategy it decodes to: a number of 3 or more
/// is `3`, a smaller number is itself, and a text that is no number is kept.
pub open spec fn canonical_ss(v: Seq<char>) -> Seq<char> {
    match spec_parse_usize(v) {
        Some(n) => if n >= 3 {
            "3"@
        } else {
            decimal(n as nat)
        },
        None => v,
    }
}

/// The canonical spelling of `argv` from position `i` on, `mem_seen` telling
/// whether the memory-manager flag was already written.
pub open spec fn canonical_from(argv: Seq<Seq<char>>, i: nat, mem_seen: bool) -> Seq<Seq<char>>
    decreases argv.len() - i,
{
    if i >= argv.len() {
        Seq::empty()
    } else if argv[i as int] == "-ss"@ && i + 1 < argv.len() {
        seq!["-ss"@, canonical_ss(argv[i + 1 as int])] + canonical_from(argv, i + 2, mem_seen)
    } else if is_mem0_alias(argv[i as int]) {
        if mem_seen {
            canonical_from(argv, i + 1, true)
        } else {
            seq!["-mem0"@] + canonical_from(argv, i + 1, true)
        }
    } else {
        seq![argv[i as int]] + canonical_from(argv, i + 1, mem_seen)
    }
}

/// The views of some strings.
pub open spec fn arg_views(v: Seq<String>) -> Seq<Seq<char>> {
    v.map_values(|s: String| s@)
}

/// Whether `t` spells the memory-manager flag.
fn mem0_alias(t: &[char]) -> (b: bool)
    ensures
        b == is_mem0_alias(t@),
{
    same_text(t, "-mem") || same_text(t, "-mem0") || same_text(t, "--memory-manager")
        || same_text(t, "--memory-manager0")
}

/// The canonical value of `-ss`.
fn ss_value(v: &String) -> (r: String)
    ensures
        r@ == canonical_ss(v@),
{
    let chars = chars_of(v.as_str());
    match parse_usize(&chars) {
        Some(n) => if n >= 3 {
            owned("3")
        } else {
            decimal_text(n)
        },
        None => v.clone(),
    }
}

/// The compiler arguments as the cache identity spells them: `-ss` values
/// decoded to the strategy they select, the memory-manager flag written once
/// as `-mem0` where it first appears, every other argument as it is.
pub fn canonicalize_cache_identity_argv(argv: &[String]) -> (r: Vec<String>)
    ensures
        arg_views(r@) == canonical_from(arg_views(argv@), 0, false),
{
    let ghost args = arg_views(argv@);
    let mut out: Vec<String> = Vec::new();
    let mut seen = false;
    let mut i: usize = 0;
    while i < argv.len()
        invariant
            i <= argv.len(),
            args == arg_views(argv@),
            arg_views(out@) + canonical_from(args, i as nat, seen) == canonical_from(args, 0, false),
        decreases argv.len() - i,
    {
        let ghost before = arg_views(out@);
        let t = chars_of(argv[i].as_str());
        assert(args[i as int] == t@);
        if same_text(&t, "-ss") && i + 1 < argv.len() {
            out.push(owned("-ss"));
            out.push(ss_value(&argv[i + 1]));
            assert(arg_views(out@) =~= before + seq!["-ss"@, canonical_ss(args[i + 1])]);
            assert(before + seq!["-ss"@, canonical_ss(args[i + 1])] + canonical_from(args, (i + 2) as nat, seen)
                =~= before + (seq!["-ss"@, canonical_ss(args[i + 1])] + canonical_from(args, (i + 2) as nat, seen)));
            i = i + 2;
        } else if mem0_alias(&t) {
            if !seen {
                out.push(owned("-mem0"));
                assert(arg_views(out@) =~= before + seq!["-mem0"@]);
                assert(before + seq!["-mem0"@] + canonical_from(args, (i + 1) as nat, true)
                    =~= before + (seq!["-mem0"@] + canonical_from(args, (i + 1) as nat, true)));
            }
            seen = true;
            i = i + 1;
        } else {
            out.push(argv[i].clone());
            assert(arg_views(out@) =~= before + seq![args[i as int]]);
            assert(before + seq![args[i as int]] + canonical_from(args, (i + 1) as nat, seen)
                =~= before + (seq![args[i as int]] + canonical_from(args, (i + 1) as nat, seen)));
            i = i + 1;
        }
    }
    assert(canonical_from(args, i as nat, seen) == Seq::<Seq<char>>::empty());
    assert(arg_views(out@) + Seq::<Seq<char>>::empty() == arg_views(out@));
    out
}

} // verus!

verus! {

/// Reading `argv` from `|p| + j` on in `p + argv` is reading it from `j` on.
proof fn lemma_canonical_shift(p: Seq<Seq<char>>, q: Seq<Seq<char>>, j: nat, seen: bool)
    ensures
        canonical_from(p + q, p.len() + j, seen) == canonical_from(q, j, seen),
    decreases q.len() - j,
{
    if j < q.len() {
        assert((p + q)[p.len() + j as int] == q[j as int]);
        if j + 1 < q.len() {
            assert((p + q)[p.len() + j + 1 as int] == q[j + 1 as int]);
        }
        lemma_canonical_shift(p, q, j + 1, true);
        lemma_canonical_shift(p, q, j + 1, seen);
        if j + 2 <= q.len() {
            lemma_canonical_shift(p, q, j + 2, seen);
        }
    }
}

/// A decoded `-ss` value decodes to itself.
proof fn lemma_canonical_ss_stable(v: Seq<char>)
    ensures
        canonical_ss(canonical_ss(v)) == canonical_ss(v),
{
    reveal_strlit("3");
    assert(digit_char(0) == '0');
    assert(digit_char(1) == '1');
    assert(digit_char(2) == '2');
    assert(decimal(0) == seq!['0']);
    assert(decimal(1) == seq!['1']);
    assert(decimal(2) == seq!['2']);
    assert(all_digits(seq!['3']));
    assert(all_digits(seq!['0']));
    assert(all_digits(seq!['1']));
    assert(all_digits(seq!['2']));
    assert(digit_value('3') == 3);
    assert(digit_value('0') == 0);
    assert(digit_value('1') == 1);
    assert(digit_value('2') == 2);
    assert(decimal_value(seq!['3']) == 3) by {
        assert(seq!['3'].drop_last() =~= Seq::<char>::empty());
        assert(decimal_value(Seq::<char>::empty()) == 0);
        assert(seq!['3'].last() == '3');
        assert(seq!['3'].len() == 1);
    }
    assert(decimal_value(seq!['0']) == 0) by {
        assert(seq!['0'].drop_last() =~= Seq::<char>::empty());
        assert(decimal_value(Seq::<char>::empty()) == 0);
        assert(seq!['0'].last() == '0');
        assert(seq!['0'].len() == 1);
    }
    assert(decimal_value(seq!['1']) == 1) by {
        assert(seq!['1'].drop_last() =~= Seq::<char>::empty());
        assert(decimal_value(Seq::<char>::empty()) == 0);
        assert(seq!['1'].last() == '1');
        assert(seq!['1'].len() == 1);
    }
    assert(decimal_value(seq!['2']) == 2) by {
        assert(seq!['2'].drop_last() =~= Seq::<char>::empty());
        assert(decimal_value(Seq::<char>::empty()) == 0);
        assert(seq!['2'].last() == '2');
        assert(seq!['2'].len() == 1);
    }
}

/// The spelling the cache identity uses is canonical: spelling it again
/// changes nothing, from any position and whether or not the memory-manager
/// flag was already written.
pub proof fn lemma_canonical_from_stable(argv: Seq<Seq<char>>, i: nat, seen: bool)
    ensures
        canonical_from(canonical_from(argv, i, seen), 0, seen) == canonical_from(argv, i, seen),
    decreases argv.len() - i,
{
    if i < argv.len() {
        reveal_strlit("-ss");
        reveal_strlit("-mem0");
        reveal_strlit("-mem");
        reveal_strlit("--memory-manager");
        reveal_strlit("--memory-manager0");
        if argv[i as int] == "-ss"@ && i + 1 < argv.len() {
            let head = seq!["-ss"@, canonical_ss(argv[i + 1 as int])];
            let rest = canonical_from(argv, i + 2, seen);
            lemma_canonical_from_stable(argv, i + 2, seen);
            lemma_canonical_shift(head, rest, 0, seen);
            lemma_canonical_ss_stable(argv[i + 1 as int]);
            assert(canonical_from(head + rest, 0, seen) =~= head + canonical_from(head + rest, 2, seen));
        } else if is_mem0_alias(argv[i as int]) {
            lemma_canonical_from_stable(argv, i + 1, true);
            if !seen {
                let head = seq!["-mem0"@];
                let rest = canonical_from(argv, i + 1, true);
                lemma_canonical_shift(head, rest, 0, true);
                assert(is_mem0_alias((head + rest)[0]));
                assert((head + rest)[0].len() != "-ss"@.len());
                assert(canonical_from(head + rest, 0, seen) =~= head + canonical_from(head + rest, 1, true));
            }
        } else {
            let head = seq![argv[i as int]];
            let rest = canonical_from(argv, i + 1, seen);
            lemma_canonical_from_stable(argv, i + 1, seen);
            lemma_canonical_shift(head, rest, 0, seen);
            if argv[i as int] == "-ss"@ {
                assert(rest =~= Seq::<Seq<char>>::empty());
                assert(head + rest =~= head);
            }
            assert(canonical_from(head + rest, 0, seen) =~= head + canonical_from(head + rest, 1, seen));
        }
    }
}

/// Canonicalizing a canonical `argv` gives it back: the cache identity of
/// an identity is itself.
pub proof fn lemma_canonical_stable(argv: Seq<Seq<char>>)
    ensures
        canonical_from(canonical_from(argv, 0, false), 0, false) == canonical_from(argv, 0, false),
{
    lemma_canonical_from_stable(argv, 0, false);
}

} // verus!

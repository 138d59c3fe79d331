//! What the command line decides before anything is compiled: the checks
//! `--check` asks for, the compiler options as the compiler's `argv` spells
//! them, which flags the impulse-test protocol and a polyphonic run refuse
//! and with what message, and where the lines that annotate a result go.

use vstd::prelude::*;
use crate::text::{
    chars_of, decimal, join, join_chars, lemma_split_nonempty, owned, parse_usize, push_chars, push_decimal, push_str,
    same_text, spec_parse_usize, split_char, split_chars, string_of, trim, trim_chars,
};

verus! {

// ------------------------------------------------------------ checks ----

/// An invariant `--check` verifies on the render.
#[derive(Debug, Clone, Copy, PartialEq, Eq, Structural)]
pub enum Check {
    /// The same samples at this block size.
    Block(usize),
    /// The same samples again after a reset of the instance.
    Reset,
    /// The same samples from a second compilation.
    Determinism,
    /// The distance between the two sample widths.
    Width,
}

/// The name of a check in the report: `block=N`, `reset`, `determinism`,
/// `width`.
pub open spec fn spec_check_name(c: Check) -> Seq<char> {
    match c {
        Check::Block(size) => "block="@ + decimal(size as nat),
        Check::Reset => "reset"@,
        Check::Determinism => "determinism"@,
        Check::Width => "width"@,
    }
}

impl Check {
    /// The name of the check in the report.
    pub fn name(self) -> (r: String)
        ensures
            r@ == spec_check_name(self),
    {
        match self {
            Check::Block(size) => {
                let mut v: Vec<char> = Vec::new();
                push_str(&mut v, "block=");
                push_decimal(&mut v, size);
                string_of(&v)
            },
            Check::Reset => owned("reset"),
            Check::Determinism => owned("determinism"),
            Check::Width => owned("width"),
        }
    }
}

/// Block sizes `--check block` tries when none is given: a sample at a time,
/// a size that divides nothing, and a large one.
pub const DEFAULT_CHECK_BLOCKS: [usize; 3] = [1, 7, 512];

/// `c` added to the checks `cs`, unless it is already there or it is the
/// render's own block size, which the others are compared with.
pub open spec fn add_check(cs: Seq<Check>, c: Check, own_block: usize) -> Seq<Check> {
    if c != Check::Block(own_block) && !cs.contains(c) {
        cs.push(c)
    } else {
        cs
    }
}

/// The default block sizes added to `cs`.
pub open spec fn add_default_blocks(cs: Seq<Check>, own_block: usize) -> Seq<Check> {
    add_check(
        add_check(add_check(cs, Check::Block(1), own_block), Check::Block(7), own_block),
        Check::Block(512),
        own_block,
    )
}

/// Why `--check TEXT` is refused as a whole.
pub open spec fn unknown_check(text: Seq<char>) -> Seq<char> {
    "unknown check `"@ + text
        + "` (expected block[=N1,N2,...], reset, determinism, width or all)"@
}

/// Why a size of `--check block=...` is refused.
pub open spec fn bad_block_size(text: Seq<char>, size: Seq<char>) -> Seq<char> {
    "`--check "@ + text + "`: `"@ + size + "` is not a block size"@
}

/// The sizes of `--check TEXT` (`block=N1,N2,...`), the first `n` of them,
/// added to `cs`: each trimmed, a positive integer, else refused.
pub open spec fn add_block_sizes(cs: Seq<Check>, text: Seq<char>, sizes: Seq<Seq<char>>, n: nat, own_block: usize) -> Result<Seq<Check>, Seq<char>>
    decreases n,
{
    if n == 0 {
        Ok(cs)
    } else {
        match add_block_sizes(cs, text, sizes, (n - 1) as nat, own_block) {
            Err(e) => Err(e),
            Ok(c) => match spec_parse_usize(trim(sizes[n - 1])) {
                Some(k) => if k > 0 {
                    Ok(add_check(c, Check::Block(k), own_block))
                } else {
                    Err(bad_block_size(text, sizes[n - 1]))
                },
                None => Err(bad_block_size(text, sizes[n - 1])),
            },
        }
    }
}

/// Whether `s` begins with `p`.
pub open spec fn has_prefix(s: Seq<char>, p: Seq<char>) -> bool {
    p.len() <= s.len() && s.take(p.len() as int) == p
}

/// One occurrence of `--check TEXT` applied to the checks `cs`.
pub open spec fn add_check_text(cs: Seq<Check>, text: Seq<char>, own_block: usize) -> Result<Seq<Check>, Seq<char>> {
    if text == "reset"@ {
        Ok(add_check(cs, Check::Reset, own_block))
    } else if text == "determinism"@ {
        Ok(add_check(cs, Check::Determinism, own_block))
    } else if text == "width"@ {
        Ok(add_check(cs, Check::Width, own_block))
    } else if text == "block"@ {
        Ok(add_default_blocks(cs, own_block))
    } else if text == "all"@ {
        Ok(
            add_check(
                add_check(
                    add_check(add_default_blocks(cs, own_block), Check::Reset, own_block),
                    Check::Determinism,
                    own_block,
                ),
                Check::Width,
                own_block,
            ),
        )
    } else if has_prefix(text, "block="@) {
        let sizes = split_char(text.skip(6), ',');
        add_block_sizes(cs, text, sizes, sizes.len(), own_block)
    } else {
        Err(unknown_check(text))
    }
}

/// The first `n` occurrences of `--check`, in order.
pub open spec fn spec_parse_checks(specs: Seq<Seq<char>>, n: nat, own_block: usize) -> Result<Seq<Check>, Seq<char>>
    decreases n,
{
    if n == 0 {
        Ok(Seq::empty())
    } else {
        match spec_parse_checks(specs, (n - 1) as nat, own_block) {
            Err(e) => Err(e),
            Ok(cs) => add_check_text(cs, specs[n - 1], own_block),
        }
    }
}

/// The views of some strings.
pub open spec fn texts(v: Seq<String>) -> Seq<Seq<char>> {
    v.map_values(|s: String| s@)
}

/// No check twice, and no block size equal to the render's own.
pub open spec fn checks_wanted(cs: Seq<Check>, own_block: usize) -> bool {
    &&& cs.no_duplicates()
    &&& !cs.contains(Check::Block(own_block))
}

proof fn lemma_add_check_wanted(cs: Seq<Check>, c: Check, own_block: usize)
    requires
        checks_wanted(cs, own_block),
    ensures
        checks_wanted(add_check(cs, c, own_block), own_block),
{
    if c != Check::Block(own_block) && !cs.contains(c) {
        let d = cs.push(c);
        assert forall|i: int, j: int| 0 <= i < d.len() && 0 <= j < d.len() && i != j implies d[i] != d[j] by {
            if i < cs.len() && j < cs.len() {
            } else if i == cs.len() {
                assert(cs.contains(d[j]) || j == cs.len());
            } else {
                assert(cs.contains(d[i]) || i == cs.len());
            }
        }
        assert(!d.contains(Check::Block(own_block))) by {
            if d.contains(Check::Block(own_block)) {
                let k = choose|k: int| 0 <= k < d.len() && d[k] == Check::Block(own_block);
                if k < cs.len() {
                    assert(cs.contains(Check::Block(own_block)));
                }
            }
        }
    }
}

proof fn lemma_sizes_wanted(cs: Seq<Check>, text: Seq<char>, sizes: Seq<Seq<char>>, n: nat, own_block: usize)
    requires
        checks_wanted(cs, own_block),
    ensures
        add_block_sizes(cs, text, sizes, n, own_block) matches Ok(d) ==> checks_wanted(d, own_block),
    decreases n,
{
    if n > 0 {
        lemma_sizes_wanted(cs, text, sizes, (n - 1) as nat, own_block);
        if let Ok(c) = add_block_sizes(cs, text, sizes, (n - 1) as nat, own_block) {
            if let Some(k) = spec_parse_usize(trim(sizes[n - 1])) {
                lemma_add_check_wanted(c, Check::Block(k), own_block);
            }
        }
    }
}

/// Adding a check keeps those there, and adds nothing but it; it is there
/// afterwards unless it is the render's own block size.
proof fn lemma_add_check_contains(cs: Seq<Check>, c: Check, own_block: usize)
    ensures
        forall|x: Check| cs.contains(x) ==> #[trigger] add_check(cs, c, own_block).contains(x),
        forall|x: Check| #[trigger] add_check(cs, c, own_block).contains(x) ==> cs.contains(x) || x == c,
        c != Check::Block(own_block) ==> add_check(cs, c, own_block).contains(c),
{
    if c != Check::Block(own_block) && !cs.contains(c) {
        let d = cs.push(c);
        assert forall|x: Check| cs.contains(x) implies #[trigger] d.contains(x) by {
            let i = choose|i: int| 0 <= i < cs.len() && cs[i] == x;
            assert(d[i] == x);
        }
        assert forall|x: Check| #[trigger] d.contains(x) implies cs.contains(x) || x == c by {
            let i = choose|i: int| 0 <= i < d.len() && d[i] == x;
            if i < cs.len() {
                assert(cs[i] == x);
            }
        }
        assert(d[cs.len() as int] == c);
    }
}

/// Whether piece `j` of `sizes`, trimmed, is the number `k`.
pub open spec fn size_given(sizes: Seq<Seq<char>>, j: int, k: usize) -> bool {
    spec_parse_usize(trim(sizes[j])) == Some(k)
}

/// The sizes of `block=...` keep the checks there and add block sizes only:
/// each of the sizes given, but the render's own.
proof fn lemma_block_sizes_contains(cs: Seq<Check>, text: Seq<char>, sizes: Seq<Seq<char>>, n: nat, own_block: usize)
    requires
        n <= sizes.len(),
    ensures
        add_block_sizes(cs, text, sizes, n, own_block) matches Ok(d) ==> ({
            &&& forall|x: Check| cs.contains(x) ==> #[trigger] d.contains(x)
            &&& forall|x: Check| #[trigger] d.contains(x) ==> cs.contains(x) || x is Block
            &&& forall|k: usize| #[trigger] d.contains(Check::Block(k)) ==> cs.contains(Check::Block(k)) || exists|j: int|
                0 <= j < n && size_given(sizes, j, k)
            &&& forall|j: int, k: usize|
                0 <= j < n && #[trigger] size_given(sizes, j, k) && k != own_block ==> d.contains(Check::Block(k))
        }),
    decreases n,
{
    if n > 0 {
        let m = (n - 1) as nat;
        lemma_block_sizes_contains(cs, text, sizes, m, own_block);
        if let Ok(c) = add_block_sizes(cs, text, sizes, m, own_block) {
            if let Some(k) = spec_parse_usize(trim(sizes[m as int])) {
                lemma_add_check_contains(c, Check::Block(k), own_block);
                if let Ok(d) = add_block_sizes(cs, text, sizes, n, own_block) {
                    assert forall|q: usize| #[trigger] d.contains(Check::Block(q)) implies cs.contains(Check::Block(q))
                        || exists|j: int| 0 <= j < n && size_given(sizes, j, q) by {
                        if !c.contains(Check::Block(q)) {
                            assert(size_given(sizes, m as int, q));
                        } else if !cs.contains(Check::Block(q)) {
                            let j = choose|j: int| 0 <= j < m && size_given(sizes, j, q);
                            assert(0 <= j < n);
                        }
                    }
                    assert forall|j: int, q: usize|
                        0 <= j < n && #[trigger] size_given(sizes, j, q) && q != own_block implies d.contains(Check::Block(q)) by {
                        if j < m {
                            assert(c.contains(Check::Block(q)));
                        }
                    }
                }
            }
        }
    }
}

/// Whether `--check TEXT` asks for block size `k`: `block` and `all` ask for
/// the default sizes, `block=N1,N2,...` for those it lists.
pub open spec fn block_asked(text: Seq<char>, k: usize) -> bool {
    ||| (text == "block"@ || text == "all"@) && (k == 1 || k == 7 || k == 512)
    ||| has_prefix(text, "block="@) && exists|j: int|
        0 <= j < split_char(text.skip(6), ',').len() && size_given(split_char(text.skip(6), ','), j, k)
}

/// One `--check TEXT` keeps the checks there; what it adds besides block
/// sizes is the check `TEXT` names, or every check for `all`.
proof fn lemma_check_text_contains(cs: Seq<Check>, text: Seq<char>, own_block: usize)
    ensures
        add_check_text(cs, text, own_block) matches Ok(d) ==> ({
            &&& forall|x: Check| cs.contains(x) ==> #[trigger] d.contains(x)
            &&& forall|x: Check| #[trigger] d.contains(x) && !(x is Block) ==> cs.contains(x)
                || text == spec_check_name(x) || text == "all"@
            &&& (text == spec_check_name(Check::Reset) || text == "all"@) ==> d.contains(Check::Reset)
            &&& (text == spec_check_name(Check::Determinism) || text == "all"@) ==> d.contains(Check::Determinism)
            &&& (text == spec_check_name(Check::Width) || text == "all"@) ==> d.contains(Check::Width)
            &&& forall|k: usize| #[trigger] d.contains(Check::Block(k)) ==> cs.contains(Check::Block(k)) || block_asked(text, k)
            &&& forall|k: usize| #[trigger] block_asked(text, k) && k != own_block ==> d.contains(Check::Block(k))
        }),
{
    reveal_strlit("reset");
    reveal_strlit("determinism");
    reveal_strlit("width");
    reveal_strlit("block");
    reveal_strlit("all");
    let b1 = add_check(cs, Check::Block(1), own_block);
    let b7 = add_check(b1, Check::Block(7), own_block);
    let bd = add_default_blocks(cs, own_block);
    lemma_add_check_contains(cs, Check::Block(1), own_block);
    lemma_add_check_contains(b1, Check::Block(7), own_block);
    lemma_add_check_contains(b7, Check::Block(512), own_block);
    lemma_add_check_contains(cs, Check::Reset, own_block);
    lemma_add_check_contains(cs, Check::Determinism, own_block);
    lemma_add_check_contains(cs, Check::Width, own_block);
    let r = add_check(bd, Check::Reset, own_block);
    let rd = add_check(r, Check::Determinism, own_block);
    lemma_add_check_contains(bd, Check::Reset, own_block);
    lemma_add_check_contains(r, Check::Determinism, own_block);
    lemma_add_check_contains(rd, Check::Width, own_block);
    if has_prefix(text, "block="@) {
        let sizes = split_char(text.skip(6), ',');
        lemma_block_sizes_contains(cs, text, sizes, sizes.len(), own_block);
        reveal_strlit("block=");
        assert(text != "block"@ && text != "all"@) by {
            if text == "block"@ {
                assert(text.len() < 6);
            }
            if text == "all"@ {
                assert(text.len() < 6);
            }
        }
    }
    assert("reset"@.len() != "all"@.len());
    assert("determinism"@.len() != "all"@.len());
    assert("width"@.len() != "all"@.len());
    assert("reset"@[0] != "determinism"@[0]);
    assert("reset"@[0] != "width"@[0]);
    assert("determinism"@[0] != "width"@[0]);
    reveal_strlit("block=");
    assert(!has_prefix("determinism"@, "block="@)) by {
        assert("determinism"@.take(6)[0] != "block="@[0]);
    }
    assert(!has_prefix("reset"@, "block="@));
    assert(!has_prefix("width"@, "block="@));
    assert(!has_prefix("block"@, "block="@));
    assert(!has_prefix("all"@, "block="@));
    assert forall|k: usize| #[trigger] bd.contains(Check::Block(k)) implies cs.contains(Check::Block(k)) || k == 1
        || k == 7 || k == 512 by {
        if !b7.contains(Check::Block(k)) {
        } else if !b1.contains(Check::Block(k)) {
        }
    }
    assert forall|k: usize| (k == 1 || k == 7 || k == 512) && k != own_block implies #[trigger] bd.contains(
        Check::Block(k),
    ) by {
        if k == 1 {
            assert(b1.contains(Check::Block(1)));
            assert(b7.contains(Check::Block(1)));
        } else if k == 7 {
            assert(b7.contains(Check::Block(7)));
        }
    }
    assert forall|k: usize| #[trigger] add_check(rd, Check::Width, own_block).contains(Check::Block(k)) implies bd.contains(
        Check::Block(k),
    ) by {
        assert(rd.contains(Check::Block(k)));
        assert(r.contains(Check::Block(k)));
    }
    assert forall|k: usize| #[trigger] bd.contains(Check::Block(k)) implies add_check(rd, Check::Width, own_block).contains(
        Check::Block(k),
    ) by {
        assert(r.contains(Check::Block(k)));
        assert(rd.contains(Check::Block(k)));
    }
}

/// A `--check` that names a check (`reset`, `determinism`, `width`) adds
/// that check, and `all` adds each of them; every check in the result that
/// is not a block size was named by one of the `--check`s, or asked for by
/// `all`. A block size is in the result exactly when a `--check` asked for
/// it (`block` and `all` the default sizes 1, 7 and 512, `block=N1,...`
/// those it lists) and it is not the render's own.
pub proof fn lemma_checks_asked(specs: Seq<Seq<char>>, n: nat, own_block: usize)
    requires
        n <= specs.len(),
    ensures
        spec_parse_checks(specs, n, own_block) matches Ok(cs) ==> ({
            &&& forall|i: int, c: Check|
                #![trigger specs[i], cs.contains(c)]
                0 <= i < n && !(c is Block) && (specs[i] == spec_check_name(c) || specs[i] == "all"@)
                    ==> cs.contains(c)
            &&& forall|c: Check| #[trigger] cs.contains(c) && !(c is Block) ==> exists|i: int|
                0 <= i < n && (specs[i] == spec_check_name(c) || specs[i] == "all"@)
            &&& forall|i: int, k: usize|
                0 <= i < n && #[trigger] block_asked(specs[i], k) && k != own_block ==> cs.contains(Check::Block(k))
            &&& forall|k: usize| #[trigger] cs.contains(Check::Block(k)) ==> exists|i: int|
                0 <= i < n && block_asked(specs[i], k)
            &&& !cs.contains(Check::Block(own_block))
        }),
    decreases n,
{
    if n > 0 {
        let m = (n - 1) as nat;
        lemma_checks_asked(specs, m, own_block);
        if let Ok(prev) = spec_parse_checks(specs, m, own_block) {
            lemma_check_text_contains(prev, specs[m as int], own_block);
            if let Ok(cs) = add_check_text(prev, specs[m as int], own_block) {
                assert forall|i: int, c: Check|
                    #![trigger specs[i], cs.contains(c)]
                    0 <= i < n && !(c is Block) && (specs[i] == spec_check_name(c) || specs[i] == "all"@)
                        implies cs.contains(c) by {
                    if i < m {
                        assert(prev.contains(c));
                    } else {
                        match c {
                            Check::Reset => {},
                            Check::Determinism => {},
                            Check::Width => {},
                            Check::Block(_) => {},
                        }
                    }
                }
                assert forall|c: Check| #[trigger] cs.contains(c) && !(c is Block) implies exists|i: int|
                    0 <= i < n && (specs[i] == spec_check_name(c) || specs[i] == "all"@) by {
                    if prev.contains(c) {
                        let i = choose|i: int| 0 <= i < m && (specs[i] == spec_check_name(c) || specs[i] == "all"@);
                        assert(0 <= i < n);
                    } else {
                        assert(specs[m as int] == spec_check_name(c) || specs[m as int] == "all"@);
                    }
                }
                assert forall|i: int, k: usize|
                    0 <= i < n && #[trigger] block_asked(specs[i], k) && k != own_block implies cs.contains(
                        Check::Block(k),
                    ) by {
                    if i < m {
                        assert(prev.contains(Check::Block(k)));
                    }
                }
                assert forall|k: usize| #[trigger] cs.contains(Check::Block(k)) implies exists|i: int|
                    0 <= i < n && block_asked(specs[i], k) by {
                    if prev.contains(Check::Block(k)) {
                        let i = choose|i: int| 0 <= i < m && block_asked(specs[i], k);
                        assert(0 <= i < n);
                    } else {
                        assert(block_asked(specs[m as int], k));
                    }
                }
                lemma_checks_wanted(specs, n, own_block);
            }
        }
    } else {
        if let Ok(cs) = spec_parse_checks(specs, n, own_block) {
            assert(cs =~= Seq::<Check>::empty());
        }
    }
}


/// What `--check` parses to holds no check twice and never the render's
/// own block size, which the other renders are compared with.
pub proof fn lemma_checks_wanted(specs: Seq<Seq<char>>, n: nat, own_block: usize)
    ensures
        spec_parse_checks(specs, n, own_block) matches Ok(cs) ==> checks_wanted(cs, own_block),
    decreases n,
{
    if n > 0 {
        lemma_checks_wanted(specs, (n - 1) as nat, own_block);
        if let Ok(cs) = spec_parse_checks(specs, (n - 1) as nat, own_block) {
            let text = specs[n - 1];
            let d = add_default_blocks(cs, own_block);
            lemma_add_check_wanted(cs, Check::Reset, own_block);
            lemma_add_check_wanted(cs, Check::Determinism, own_block);
            lemma_add_check_wanted(cs, Check::Width, own_block);
            lemma_add_check_wanted(cs, Check::Block(1), own_block);
            lemma_add_check_wanted(add_check(cs, Check::Block(1), own_block), Check::Block(7), own_block);
            lemma_add_check_wanted(
                add_check(add_check(cs, Check::Block(1), own_block), Check::Block(7), own_block),
                Check::Block(512),
                own_block,
            );
            lemma_add_check_wanted(d, Check::Reset, own_block);
            lemma_add_check_wanted(add_check(d, Check::Reset, own_block), Check::Determinism, own_block);
            lemma_add_check_wanted(
                add_check(add_check(d, Check::Reset, own_block), Check::Determinism, own_block),
                Check::Width,
                own_block,
            );
            let sizes = split_char(text.skip(6), ',');
            lemma_sizes_wanted(cs, text, sizes, sizes.len(), own_block);
        }
    }
}

/// A refused size refuses the whole list.
proof fn lemma_sizes_refused(cs: Seq<Check>, text: Seq<char>, sizes: Seq<Seq<char>>, i: nat, n: nat, own_block: usize)
    requires
        i <= n,
        add_block_sizes(cs, text, sizes, i, own_block) is Err,
    ensures
        add_block_sizes(cs, text, sizes, n, own_block) == add_block_sizes(cs, text, sizes, i, own_block),
    decreases n,
{
    if n > i {
        lemma_sizes_refused(cs, text, sizes, i, (n - 1) as nat, own_block);
    }
}

/// A refused occurrence refuses the whole command line.
proof fn lemma_checks_refused(specs: Seq<Seq<char>>, i: nat, n: nat, own_block: usize)
    requires
        i <= n,
        spec_parse_checks(specs, i, own_block) is Err,
    ensures
        spec_parse_checks(specs, n, own_block) == spec_parse_checks(specs, i, own_block),
    decreases n,
{
    if n > i {
        lemma_checks_refused(specs, i, (n - 1) as nat, own_block);
    }
}

/// Adds `c` to `checks` as [`add_check`] says.
fn push_check(checks: &mut Vec<Check>, c: Check, own_block: usize)
    ensures
        final(checks)@ == add_check(old(checks)@, c, own_block),
{
    let mut i: usize = 0;
    let mut found = false;
    while i < checks.len()
        invariant
            i <= checks.len(),
            found <==> exists|j: int| 0 <= j < i && checks@[j] == c,
        decreases checks.len() - i,
    {
        if checks[i] == c {
            found = true;
        }
        i = i + 1;
    }
    assert(found <==> checks@.contains(c));
    if c != Check::Block(own_block) && !found {
        checks.push(c);
    }
}

/// Adds the default block sizes.
fn push_default_blocks(checks: &mut Vec<Check>, own_block: usize)
    ensures
        final(checks)@ == add_default_blocks(old(checks)@, own_block),
{
    push_check(checks, Check::Block(DEFAULT_CHECK_BLOCKS[0]), own_block);
    push_check(checks, Check::Block(DEFAULT_CHECK_BLOCKS[1]), own_block);
    push_check(checks, Check::Block(DEFAULT_CHECK_BLOCKS[2]), own_block);
}

/// Whether `s` begins with `p`.
fn has_prefix_chars(s: &[char], p: &str) -> (b: bool)
    ensures
        b == has_prefix(s@, p@),
{
    let w = chars_of(p);
    if w.len() > s.len() {
        return false;
    }
    let mut i: usize = 0;
    while i < w.len()
        invariant
            i <= w.len(),
            w.len() <= s.len(),
            w@ == p@,
            forall|j: int| 0 <= j < i ==> s@[j] == w@[j],
        decreases w.len() - i,
    {
        if s[i] != w[i] {
            assert(s@.take(w.len() as int)[i as int] != w@[i as int]);
            return false;
        }
        i = i + 1;
    }
    assert(s@.take(w.len() as int) =~= w@);
    true
}

/// The message of a size that is not one.
fn bad_size_message(text: &[char], size: &[char]) -> (r: String)
    ensures
        r@ == bad_block_size(text@, size@),
{
    let mut v: Vec<char> = Vec::new();
    push_str(&mut v, "`--check ");
    push_chars(&mut v, text);
    push_str(&mut v, "`: `");
    push_chars(&mut v, size);
    push_str(&mut v, "` is not a block size");
    string_of(&v)
}

/// Applies one `--check TEXT`.
fn apply_check_text(checks: &mut Vec<Check>, text: &[char], own_block: usize) -> (r: Result<(), String>)
    ensures
        match add_check_text(old(checks)@, text@, own_block) {
            Ok(cs) => r is Ok && final(checks)@ == cs,
            Err(e) => r is Err && r->Err_0@ == e,
        },
{
    if same_text(text, "reset") {
        push_check(checks, Check::Reset, own_block);
        return Ok(());
    }
    if same_text(text, "determinism") {
        push_check(checks, Check::Determinism, own_block);
        return Ok(());
    }
    if same_text(text, "width") {
        push_check(checks, Check::Width, own_block);
        return Ok(());
    }
    if same_text(text, "block") {
        push_default_blocks(checks, own_block);
        return Ok(());
    }
    if same_text(text, "all") {
        push_default_blocks(checks, own_block);
        push_check(checks, Check::Reset, own_block);
        push_check(checks, Check::Determinism, own_block);
        push_check(checks, Check::Width, own_block);
        return Ok(());
    }
    if !has_prefix_chars(text, "block=") {
        let mut v: Vec<char> = Vec::new();
        push_str(&mut v, "unknown check `");
        push_chars(&mut v, text);
        push_str(&mut v, "` (expected block[=N1,N2,...], reset, determinism, width or all)");
        return Err(string_of(&v));
    }
    proof {
        reveal_strlit("block=");
    }
    let mut rest: Vec<char> = Vec::new();
    let mut k: usize = 6;
    while k < text.len()
        invariant
            6 <= k <= text.len(),
            rest@ == text@.subrange(6, k as int),
        decreases text.len() - k,
    {
        rest.push(text[k]);
        k = k + 1;
        assert(rest@ =~= text@.subrange(6, k as int));
    }
    assert(rest@ =~= text@.skip(6));
    let sizes = split_chars(&rest, ',');
    let ghost ssizes = sizes@.map_values(|v: Vec<char>| v@);
    let ghost start = checks@;
    assert(add_check_text(start, text@, own_block) == add_block_sizes(start, text@, ssizes, ssizes.len(), own_block));
    let mut i: usize = 0;
    while i < sizes.len()
        invariant
            i <= sizes.len(),
            ssizes == sizes@.map_values(|v: Vec<char>| v@),
            add_block_sizes(start, text@, ssizes, i as nat, own_block) == Ok::<Seq<Check>, Seq<char>>(checks@),
            add_check_text(start, text@, own_block) == add_block_sizes(start, text@, ssizes, ssizes.len(), own_block),
            start == old(checks)@,
        decreases sizes.len() - i,
    {
        let t = trim_chars(&sizes[i]);
        assert(ssizes[i as int] == sizes@[i as int]@);
        match parse_usize(&t) {
            Some(n) => {
                if n > 0 {
                    push_check(checks, Check::Block(n), own_block);
                } else {
                    proof {
                        lemma_sizes_refused(start, text@, ssizes, (i + 1) as nat, ssizes.len(), own_block);
                    }
                    return Err(bad_size_message(text, &sizes[i]));
                }
            },
            None => {
                proof {
                    lemma_sizes_refused(start, text@, ssizes, (i + 1) as nat, ssizes.len(), own_block);
                }
                return Err(bad_size_message(text, &sizes[i]));
            },
        }
        i = i + 1;
    }
    Ok(())
}

/// Parses the `--check` occurrences. `block` sizes equal to the render's
/// own are dropped: that render is what the others are compared with.
///
/// # Errors
/// An occurrence that names no check, or a block size that is not a
/// positive integer.
pub fn parse_checks(specs: &[String], own_block: usize) -> (r: Result<Vec<Check>, String>)
    ensures
        match spec_parse_checks(texts(specs@), specs@.len(), own_block) {
            Ok(cs) => r is Ok && r->Ok_0@ == cs,
            Err(e) => r is Err && r->Err_0@ == e,
        },
        r matches Ok(cs) ==> checks_wanted(cs@, own_block),
{
    proof {
        lemma_checks_wanted(texts(specs@), specs@.len(), own_block);
    }
    let ghost all = texts(specs@);
    let mut checks: Vec<Check> = Vec::new();
    let mut i: usize = 0;
    while i < specs.len()
        invariant
            i <= specs.len(),
            all == texts(specs@),
            spec_parse_checks(all, i as nat, own_block) == Ok::<Seq<Check>, Seq<char>>(checks@),
        decreases specs.len() - i,
    {
        let text = chars_of(specs[i].as_str());
        assert(all[i as int] == text@);
        match apply_check_text(&mut checks, &text, own_block) {
            Ok(()) => {},
            Err(e) => {
                proof {
                    lemma_checks_refused(all, (i + 1) as nat, specs@.len(), own_block);
                }
                return Err(e);
            },
        }
        i = i + 1;
    }
    Ok(checks)
}

// --------------------------------------------------- compiler options ----

/// The compiler options the probe takes under `faust-rs`'s own names, and
/// hands on to the compiler.
#[derive(Debug, Clone)]
pub struct CompilerOptions {
    /// `-pn NAME`: compile the definition NAME instead of `process`.
    pub process_name: Option<String>,
    /// `-vec`: vector mode.
    pub vec: bool,
    /// `-vs N`: the vector size of `-vec`.
    pub vs: Option<u32>,
    /// `-lv 0|1`: the vector loop variant of `-vec`.
    pub lv: Option<u8>,
    /// `-ss N`: the scheduling strategy.
    pub scheduling_strategy: Option<u32>,
    /// `-mcd N`: the largest delay handled by a shifted copy.
    pub mcd: Option<u32>,
    /// `-dlt N`: the delay above which a line has an exact-size buffer.
    pub dlt: Option<u32>,
    /// `-ct 0|1`: the table index range check.
    pub check_table: Option<u8>,
    /// `-table-init runtime|const`.
    pub table_init: Option<String>,
    /// The value of `ma.SR` in a table folded at compile time.
    pub table_init_sample_rate: Option<i32>,
}

impl Default for CompilerOptions {
    fn default() -> (o: Self)
        ensures
            o.process_name is None,
            !o.vec,
            o.vs is None,
            o.lv is None,
            o.scheduling_strategy is None,
            o.mcd is None,
            o.dlt is None,
            o.check_table is None,
            o.table_init is None,
            o.table_init_sample_rate is None,
    {
        CompilerOptions {
            process_name: None,
            vec: false,
            vs: None,
            lv: None,
            scheduling_strategy: None,
            mcd: None,
            dlt: None,
            check_table: None,
            table_init: None,
            table_init_sample_rate: None,
        }
    }
}

/// The decimal text of a signed integer.
pub open spec fn signed_decimal(n: int) -> Seq<char> {
    if n < 0 {
        "-"@ + decimal((-n) as nat)
    } else {
        decimal(n as nat)
    }
}

/// `FLAG VALUE` when a value is given, nothing otherwise.
pub open spec fn valued(flag: Seq<char>, value: Option<Seq<char>>) -> Seq<Seq<char>> {
    match value {
        Some(v) => seq![flag, v],
        None => Seq::empty(),
    }
}

/// The text of an optional number.
pub open spec fn number_text(n: Option<int>) -> Option<Seq<char>> {
    match n {
        Some(k) => Some(signed_decimal(k)),
        None => None,
    }
}

/// The view of an optional string.
pub open spec fn string_text(s: Option<String>) -> Option<Seq<char>> {
    match s {
        Some(t) => Some(t@),
        None => None,
    }
}

/// An optional `u32` as an optional integer.
pub open spec fn int_of_u32(n: Option<u32>) -> Option<int> {
    match n {
        Some(k) => Some(k as int),
        None => None,
    }
}

/// An optional `u8` as an optional integer.
pub open spec fn int_of_u8(n: Option<u8>) -> Option<int> {
    match n {
        Some(k) => Some(k as int),
        None => None,
    }
}

/// An optional `i32` as an optional integer.
pub open spec fn int_of_i32(n: Option<i32>) -> Option<int> {
    match n {
        Some(k) => Some(k as int),
        None => None,
    }
}

/// `-vec`, then the options that shape the schedule and the delays.
pub open spec fn argv_head(o: CompilerOptions) -> Seq<Seq<char>> {
    (if o.vec { seq!["-vec"@] } else { Seq::empty() })
        + valued("-pn"@, string_text(o.process_name))
        + valued("-ss"@, number_text(int_of_u32(o.scheduling_strategy)))
        + valued("-mcd"@, number_text(int_of_u32(o.mcd)))
        + valued("-dlt"@, number_text(int_of_u32(o.dlt)))
}

/// The options of tables and of the vector mode.
pub open spec fn argv_tail(o: CompilerOptions) -> Seq<Seq<char>> {
    valued("-ct"@, number_text(int_of_u8(o.check_table)))
        + valued("--table-init"@, string_text(o.table_init))
        + valued("--table-init-sample-rate"@, number_text(int_of_i32(o.table_init_sample_rate)))
        + valued("-vs"@, number_text(int_of_u32(o.vs)))
        + valued("-lv"@, number_text(int_of_u8(o.lv)))
}

/// The options given, as the compiler's `argv` spells them: `-vec` first,
/// then each option with a value, in a fixed order.
pub open spec fn spec_compiler_options_argv(o: CompilerOptions) -> Seq<Seq<char>> {
    argv_head(o) + argv_tail(o)
}

/// The decimal text of `n`, with its sign when negative.
fn signed_text(n: i64) -> (r: String)
    requires
        n > i64::MIN,
    ensures
        r@ == signed_decimal(n as int),
{
    let mut v: Vec<char> = Vec::new();
    if n < 0 {
        v.push('-');
        let m = (0 - n) as u64;
        assert(m as nat == (-n) as nat);
        push_decimal_u64(&mut v, m);
        proof {
            reveal_strlit("-");
        }
        assert(v@ =~= "-"@ + decimal((-n) as nat));
    } else {
        push_decimal_u64(&mut v, n as u64);
    }
    string_of(&v)
}

/// Appends the decimal text of `n`.
fn push_decimal_u64(out: &mut Vec<char>, n: u64)
    ensures
        final(out)@ == old(out)@ + decimal(n as nat),
    decreases n,
{
    if n >= 10 {
        push_decimal_u64(out, n / 10);
    }
    let d: u8 = (n % 10) as u8;
    let c: char = (d + 48u8) as char;
    assert(c == crate::text::digit_char((n % 10) as nat));
    out.push(c);
    assert(decimal(n as nat) == if n < 10 {
        seq![crate::text::digit_char(n as nat)]
    } else {
        decimal((n / 10) as nat).push(crate::text::digit_char((n % 10) as nat))
    });
}

/// Appends `FLAG VALUE` when a value is given.
fn push_valued(out: &mut Vec<String>, flag: &str, value: Option<String>)
    ensures
        texts(final(out)@) == texts(old(out)@) + valued(flag@, string_text(value)),
{
    let ghost before = texts(out@);
    match value {
        Some(v) => {
            out.push(owned(flag));
            out.push(v);
            assert(texts(out@) =~= before + valued(flag@, string_text(value)));
        },
        None => {
            assert(texts(out@) =~= before + valued(flag@, string_text(value)));
        },
    }
}

/// The text of an optional `u32`.
fn u32_text(n: Option<u32>) -> (r: Option<String>)
    ensures
        string_text(r) == number_text(int_of_u32(n)),
{
    match n {
        Some(k) => Some(signed_text(k as i64)),
        None => None,
    }
}

/// The text of an optional `u8`.
fn u8_text(n: Option<u8>) -> (r: Option<String>)
    ensures
        string_text(r) == number_text(int_of_u8(n)),
{
    match n {
        Some(k) => Some(signed_text(k as i64)),
        None => None,
    }
}

/// The text of an optional `i32`.
fn i32_text(n: Option<i32>) -> (r: Option<String>)
    ensures
        string_text(r) == number_text(int_of_i32(n)),
{
    match n {
        Some(k) => Some(signed_text(k as i64)),
        None => None,
    }
}

/// Appends the first part of the `argv`.
fn push_head(out: &mut Vec<String>, o: &CompilerOptions)
    ensures
        texts(final(out)@) == texts(old(out)@) + argv_head(*o),
{
    let ghost start = texts(out@);
    if o.vec {
        out.push(owned("-vec"));
    }
    let ghost a = texts(out@);
    assert(a =~= start + (if o.vec { seq!["-vec"@] } else { Seq::<Seq<char>>::empty() }));
    push_valued(out, "-pn", o.process_name.clone());
    push_valued(out, "-ss", u32_text(o.scheduling_strategy));
    push_valued(out, "-mcd", u32_text(o.mcd));
    push_valued(out, "-dlt", u32_text(o.dlt));
    assert(texts(out@) =~= start + argv_head(*o));
}

/// Appends the second part of the `argv`.
fn push_tail(out: &mut Vec<String>, o: &CompilerOptions)
    ensures
        texts(final(out)@) == texts(old(out)@) + argv_tail(*o),
{
    let ghost start = texts(out@);
    push_valued(out, "-ct", u8_text(o.check_table));
    push_valued(out, "--table-init", o.table_init.clone());
    push_valued(out, "--table-init-sample-rate", i32_text(o.table_init_sample_rate));
    push_valued(out, "-vs", u32_text(o.vs));
    push_valued(out, "-lv", u8_text(o.lv));
    assert(texts(out@) =~= start + argv_tail(*o));
}

impl CompilerOptions {
    /// The options given, as the compiler's `argv` spells them.
    pub fn argv(&self) -> (r: Vec<String>)
        ensures
            texts(r@) == spec_compiler_options_argv(*self),
    {
        let mut out: Vec<String> = Vec::new();
        push_head(&mut out, self);
        push_tail(&mut out, self);
        assert(texts(out@) =~= spec_compiler_options_argv(*self));
        out
    }

    /// Whether any was given.
    pub fn any(&self) -> (b: bool)
        ensures
            b == (spec_compiler_options_argv(*self).len() > 0),
    {
        self.argv().len() > 0
    }
}

// ------------------------------------------------------------ refusal ----

/// Refuses the first flag of `conflicts` that was given, with the message
/// `message` makes of it: what a mode does not take is an error, never a
/// flag that is ignored.
pub fn refuse<T: Copy, F: Fn(T) -> String>(conflicts: &[(T, bool)], message: F) -> (r: Result<(), String>)
    requires
        forall|t: T| message.requires((t,)),
    ensures
        (forall|i: int| 0 <= i < conflicts@.len() ==> !(#[trigger] conflicts@[i]).1) ==> r is Ok,
        r is Ok ==> forall|i: int| 0 <= i < conflicts@.len() ==> !(#[trigger] conflicts@[i]).1,
        r is Err ==> exists|i: int|
            0 <= i < conflicts@.len() && (#[trigger] conflicts@[i]).1 && (forall|j: int|
                0 <= j < i ==> !conflicts@[j].1) && message.ensures((conflicts@[i].0,), r->Err_0),
{
    let mut i: usize = 0;
    while i < conflicts.len()
        invariant
            i <= conflicts.len(),
            forall|t: T| message.requires((t,)),
            forall|j: int| 0 <= j < i ==> !(#[trigger] conflicts@[j]).1,
        decreases conflicts.len() - i,
    {
        if conflicts[i].1 {
            let text = message(conflicts[i].0);
            assert(conflicts@[i as int].1);
            return Err(text);
        }
        i = i + 1;
    }
    Ok(())
}

// --------------------------------------------------------------- sink ----

/// Where the lines that go with a result are written: when nothing else
/// owns stdout the annotations are the output; when a dump or a sweep's
/// rows own it, they annotate it from stderr.
#[derive(Debug, Clone, Copy, PartialEq, Eq, Structural)]
pub enum Sink {
    /// The annotations are the output.
    Stdout,
    /// Rows own stdout.
    Stderr,
}

impl Sink {
    /// The sink of annotations, given whether rows own stdout.
    pub fn beside(rows_own_stdout: bool) -> (s: Sink)
        ensures
            s == (if rows_own_stdout { Sink::Stderr } else { Sink::Stdout }),
    {
        if rows_own_stdout {
            Sink::Stderr
        } else {
            Sink::Stdout
        }
    }
}

// -------------------------------------------------------------- modes ----

/// The output format of a run.
#[derive(Debug, Clone, Copy, PartialEq, Eq, Structural)]
pub enum Format {
    /// `frame,out0,out1`, one row per frame.
    Csv,
    /// The impulse-test `.ir` text.
    Ir,
    /// One versioned JSON object.
    Json,
}

/// Which rendering protocol a run follows.
#[derive(Debug, Clone, Copy, PartialEq, Eq, Structural)]
pub enum Protocol {
    /// Whatever the individual flags say.
    Free,
    /// Every knob pinned to the impulse-test values.
    ImpulseTest,
}

/// What the command line gave, as far as a mode's refusals read it: each
/// flag by its value, or by whether it was given where its value is a float.
#[derive(Debug, Clone)]
pub struct ModeFlags {
    /// `--sr`.
    pub sr: i32,
    /// `--block`.
    pub block: usize,
    /// `--in`.
    pub input: String,
    /// `--skip`.
    pub skip: usize,
    /// `--every`.
    pub every: usize,
    /// `--bargraphs`.
    pub bargraphs: bool,
    /// `--set`.
    pub sets: Vec<String>,
    /// `--format`.
    pub format: Format,
    /// `--sweep`.
    pub sweeps: Vec<String>,
    /// `--reduce`.
    pub reduce: Option<String>,
    /// `--at`.
    pub ats: Vec<String>,
    /// `--note`.
    pub notes: Vec<String>,
    /// `--chord`.
    pub chords: Vec<String>,
    /// `--nvoices`.
    pub nvoices: usize,
    /// `--precision`.
    pub precision: Option<String>,
    /// `--out`.
    pub out: Option<String>,
    /// Whether `--fail-above` was given.
    pub fail_above: bool,
    /// `--eval`.
    pub evals: Vec<String>,
    /// `--compare`.
    pub compare: Option<String>,
    /// `--ref`.
    pub reference: Option<String>,
    /// `--check`.
    pub checks: Vec<String>,
    /// `--freqresp`.
    pub freqresp: Option<String>,
    /// `--protocol`.
    pub protocol: Protocol,
    /// The options forwarded to the compiler.
    pub compiler: CompilerOptions,
    /// `--bra-tape`.
    pub bra_tape: usize,
}

/// Whether `--compare`, `--ref` or `--check` was given.
pub open spec fn spec_verification_requested(f: ModeFlags) -> bool {
    f.compare is Some || f.reference is Some || f.checks.len() > 0
}

/// Whether `--compare`, `--ref` or `--check` was given.
pub fn verification_requested(flags: &ModeFlags) -> (b: bool)
    ensures
        b == spec_verification_requested(*flags),
{
    flags.compare.is_some() || flags.reference.is_some() || flags.checks.len() > 0
}

/// The first flag of `table` that was given.
pub open spec fn first_given<T>(table: Seq<(T, bool)>) -> Option<T>
    decreases table.len(),
{
    if table.len() == 0 {
        None
    } else if table[0].1 {
        Some(table[0].0)
    } else {
        first_given(table.drop_first())
    }
}

/// `first_given` finds the given flag that no given flag precedes, and
/// nothing when no flag was given.
pub proof fn lemma_first_given<T>(table: Seq<(T, bool)>, i: int)
    requires
        0 <= i <= table.len(),
        forall|j: int| 0 <= j < i ==> !(#[trigger] table[j]).1,
        i < table.len() ==> table[i].1,
    ensures
        i < table.len() ==> first_given(table) == Some(table[i].0),
        i == table.len() ==> first_given(table) is None,
    decreases table.len(),
{
    if table.len() > 0 && i > 0 {
        assert(!table[0].1);
        let rest = table.drop_first();
        assert forall|j: int| 0 <= j < i - 1 implies !(#[trigger] rest[j]).1 by {
            assert(rest[j] == table[j + 1]);
        }
        lemma_first_given(rest, i - 1);
    }
}

/// Refuses the first flag of `table` that was given, with the message that
/// names it and ends in `suffix`.
pub fn refuse_flag(table: &[(&'static str, bool)], suffix: &str) -> (r: Result<(), String>)
    ensures
        match first_given(table@) {
            None => r is Ok,
            Some(flag) => r is Err && r->Err_0@ == flag@ + suffix@,
        },
{
    let message = |flag: &'static str| -> (m: String)
        ensures
            m@ == flag@ + suffix@,
        {
            let mut v: Vec<char> = Vec::new();
            push_str(&mut v, flag);
            push_str(&mut v, suffix);
            string_of(&v)
        };
    let r = refuse(table, message);
    proof {
        if r is Ok {
            lemma_first_given(table@, table@.len() as int);
        } else {
            let i = choose|i: int|
                0 <= i < table@.len() && (#[trigger] table@[i]).1 && (forall|j: int| 0 <= j < i ==> !table@[j].1)
                    && message.ensures((table@[i].0,), r->Err_0);
            lemma_first_given(table@, i);
        }
    }
    r
}

// ---------------------------------------------------------- protocol ----

/// The flags of `conflicts` that were given, in order.
pub open spec fn given_flags(conflicts: Seq<(&str, bool)>) -> Seq<Seq<char>>
    decreases conflicts.len(),
{
    if conflicts.len() == 0 {
        Seq::empty()
    } else {
        given_flags(conflicts.drop_last()) + if conflicts.last().1 {
            seq![conflicts.last().0@]
        } else {
            Seq::<Seq<char>>::empty()
        }
    }
}

/// What refuses flags that the impulse-test protocol does not take.
pub open spec fn protocol_conflicts_error(flags: Seq<Seq<char>>) -> Seq<char> {
    "--protocol impulse-test fixes the rendering conditions; remove "@ + join(flags, ", "@)
}

/// Refuses, all at once, the flags of `conflicts` that were given.
fn refuse_all(conflicts: &[(&str, bool)]) -> (r: Result<(), String>)
    ensures
        given_flags(conflicts@).len() == 0 ==> r is Ok,
        given_flags(conflicts@).len() > 0 ==> r is Err && r->Err_0@ == protocol_conflicts_error(
            given_flags(conflicts@),
        ),
{
    let mut offenders: Vec<Vec<char>> = Vec::new();
    let mut i: usize = 0;
    while i < conflicts.len()
        invariant
            i <= conflicts.len(),
            offenders@.map_values(|v: Vec<char>| v@) == given_flags(conflicts@.take(i as int)),
        decreases conflicts.len() - i,
    {
        let ghost before = offenders@.map_values(|v: Vec<char>| v@);
        assert(conflicts@.take(i + 1).drop_last() =~= conflicts@.take(i as int));
        assert(conflicts@.take(i + 1).last() == conflicts@[i as int]);
        let (flag, given) = conflicts[i];
        if given {
            offenders.push(chars_of(flag));
            assert(offenders@.map_values(|v: Vec<char>| v@) =~= before + seq![flag@]);
        } else {
            assert(offenders@.map_values(|v: Vec<char>| v@) =~= before + Seq::<Seq<char>>::empty());
        }
        i = i + 1;
    }
    assert(conflicts@.take(i as int) =~= conflicts@);
    if offenders.len() == 0 {
        return Ok(());
    }
    let sep = chars_of(", ");
    let joined = join_chars(&offenders, &sep);
    let mut v: Vec<char> = Vec::new();
    push_str(&mut v, "--protocol impulse-test fixes the rendering conditions; remove ");
    push_chars(&mut v, &joined);
    Err(string_of(&v))
}

/// How many flags `--protocol impulse-test` refuses.
pub const PROTOCOL_FLAGS: usize = 19;

/// The `k`th flag that `--protocol impulse-test` does not take, with
/// whether it was given: the protocol fixes the sample rate, the block size,
/// the impulse input and the whole `.ir` output, so everything that would
/// change them, or that `.ir` would ignore, conflicts.
pub open spec fn protocol_entry(f: ModeFlags, sample_rate: i32, block_size: usize, k: usize) -> (&'static str, bool) {
    match k {
        0 => ("--sr", f.sr != sample_rate),
        1 => ("--block", f.block != block_size),
        2 => ("--in", f.input@ != "impulse"@),
        3 => ("--skip", f.skip != 0),
        4 => ("--bargraphs", f.bargraphs),
        5 => ("--every", f.every != 1),
        6 => ("--set", f.sets@.len() > 0),
        7 => ("--format", f.format != Format::Ir),
        8 => ("--sweep", f.sweeps@.len() > 0),
        9 => ("--reduce", f.reduce is Some),
        10 => ("--at", f.ats@.len() > 0),
        11 => ("--note/--chord", f.notes@.len() > 0 || f.chords@.len() > 0),
        12 => ("--nvoices", f.nvoices != 0),
        13 => ("--precision", f.precision is Some),
        14 => ("--out", f.out is Some),
        15 => ("--fail-above", f.fail_above),
        16 => ("--eval", f.evals@.len() > 0),
        17 => ("--compare/--ref/--check", spec_verification_requested(f)),
        _ => ("--freqresp", f.freqresp is Some),
    }
}

/// The flags that `--protocol impulse-test` does not take, in order, each
/// with whether it was given.
pub open spec fn protocol_table(f: ModeFlags, sample_rate: i32, block_size: usize) -> Seq<(&'static str, bool)> {
    Seq::new(PROTOCOL_FLAGS as nat, |k: int| protocol_entry(f, sample_rate, block_size, k as usize))
}

/// The flags given that conflict with the impulse-test protocol, in the
/// order of `protocol_table`.
pub open spec fn spec_protocol_offenders(f: ModeFlags, sample_rate: i32, block_size: usize) -> Seq<Seq<char>> {
    given_flags(protocol_table(f, sample_rate, block_size))
}

/// `protocol_entry`, computed.
fn protocol_entry_of(flags: &ModeFlags, sample_rate: i32, block_size: usize, k: usize) -> (e: (&'static str, bool))
    requires
        k < PROTOCOL_FLAGS,
    ensures
        e == protocol_entry(*flags, sample_rate, block_size, k),
{
    match k {
        0 => ("--sr", flags.sr != sample_rate),
        1 => ("--block", flags.block != block_size),
        2 => {
            let input = chars_of(flags.input.as_str());
            ("--in", !same_text(&input, "impulse"))
        },
        3 => ("--skip", flags.skip != 0),
        4 => ("--bargraphs", flags.bargraphs),
        5 => ("--every", flags.every != 1),
        6 => ("--set", flags.sets.len() > 0),
        7 => ("--format", flags.format != Format::Ir),
        8 => ("--sweep", flags.sweeps.len() > 0),
        9 => ("--reduce", flags.reduce.is_some()),
        10 => ("--at", flags.ats.len() > 0),
        11 => ("--note/--chord", flags.notes.len() > 0 || flags.chords.len() > 0),
        12 => ("--nvoices", flags.nvoices != 0),
        13 => ("--precision", flags.precision.is_some()),
        14 => ("--out", flags.out.is_some()),
        15 => ("--fail-above", flags.fail_above),
        16 => ("--eval", flags.evals.len() > 0),
        17 => ("--compare/--ref/--check", verification_requested(flags)),
        _ => ("--freqresp", flags.freqresp.is_some()),
    }
}

/// `protocol_table`, computed.
fn protocol_conflicts(flags: &ModeFlags, sample_rate: i32, block_size: usize) -> (t: Vec<(&'static str, bool)>)
    ensures
        t@ == protocol_table(*flags, sample_rate, block_size),
{
    let ghost table = protocol_table(*flags, sample_rate, block_size);
    let mut t: Vec<(&'static str, bool)> = Vec::new();
    let mut k: usize = 0;
    while k < PROTOCOL_FLAGS
        invariant
            k <= PROTOCOL_FLAGS,
            table == protocol_table(*flags, sample_rate, block_size),
            t@ =~= table.take(k as int),
        decreases PROTOCOL_FLAGS - k,
    {
        t.push(protocol_entry_of(flags, sample_rate, block_size, k));
        assert(table.take(k + 1) =~= table.take(k as int).push(table[k as int]));
        k = k + 1;
    }
    assert(table.take(k as int) =~= table);
    t
}

/// Refuses the flags that `--protocol impulse-test` does not take, all at
/// once, rather than override them: a protocol run whose sample rate was
/// quietly ignored would produce a file that looks valid and compares wrong.
/// `sample_rate` and `block_size` are the ones the protocol fixes.
///
/// # Errors
/// Names every conflicting flag given, in the order of `protocol_table`.
pub fn reject_protocol_conflicts(flags: &ModeFlags, sample_rate: i32, block_size: usize) -> (r: Result<(), String>)
    ensures
        spec_protocol_offenders(*flags, sample_rate, block_size).len() == 0 <==> r is Ok,
        r is Err ==> r->Err_0@ == protocol_conflicts_error(spec_protocol_offenders(*flags, sample_rate, block_size)),
{
    let t = protocol_conflicts(flags, sample_rate, block_size);
    refuse_all(t.as_slice())
}

/// `--bra-tape` when it is not given.
pub const DEFAULT_BRA_TAPE: usize = 8192;

/// The flags that reach the scalar probe only and that a polyphonic run
/// refuses by name, in order, each with whether it was given.
pub open spec fn scalar_only_table(f: ModeFlags) -> Seq<(&'static str, bool)> {
    seq![
        ("--out", f.out is Some),
        ("--eval", f.evals@.len() > 0),
        ("--compare/--ref/--check", spec_verification_requested(f)),
        ("--freqresp", f.freqresp is Some),
    ]
}

/// Why a polyphonic run (`--nvoices` above 0) refuses the flags it was
/// given, if it does: sweeps and reductions, the `.ir` format, bargraphs and
/// the compiler options act on the scalar probe only, then the flags of
/// `scalar_only_table`.
pub open spec fn spec_scalar_only_refusal(f: ModeFlags) -> Option<Seq<char>> {
    if f.sweeps@.len() > 0 || f.reduce is Some {
        Some("--sweep/--reduce operate on the scalar Probe only; use --nvoices 0"@)
    } else if f.format == Format::Ir {
        Some("--format ir is scoped to the scalar impulse-test protocol"@)
    } else if f.bargraphs {
        Some("--bargraphs reads the scalar Probe only; use --nvoices 0"@)
    } else if spec_compiler_options_argv(f.compiler).len() > 0 || f.bra_tape != DEFAULT_BRA_TAPE {
        Some(
            "the compiler options (-pn, -vec, -ss, -mcd, -dlt, -ct, -table-init, --bra-tape) reach the scalar Probe only; use --nvoices 0"@,
        )
    } else {
        match first_given(scalar_only_table(f)) {
            Some(flag) => Some(flag@ + " operates on the scalar Probe only; use --nvoices 0"@),
            None => None,
        }
    }
}

/// Refuses what a polyphonic run does not take.
///
/// # Errors
/// The first reason of `spec_scalar_only_refusal` that holds.
pub fn refuse_scalar_only(flags: &ModeFlags) -> (r: Result<(), String>)
    ensures
        match spec_scalar_only_refusal(*flags) {
            None => r is Ok,
            Some(e) => r is Err && r->Err_0@ == e,
        },
{
    if flags.sweeps.len() > 0 || flags.reduce.is_some() {
        return Err(owned("--sweep/--reduce operate on the scalar Probe only; use --nvoices 0"));
    }
    if flags.format == Format::Ir {
        return Err(owned("--format ir is scoped to the scalar impulse-test protocol"));
    }
    if flags.bargraphs {
        return Err(owned("--bargraphs reads the scalar Probe only; use --nvoices 0"));
    }
    if flags.compiler.any() || flags.bra_tape != DEFAULT_BRA_TAPE {
        return Err(
            owned(
                "the compiler options (-pn, -vec, -ss, -mcd, -dlt, -ct, -table-init, --bra-tape) reach the scalar Probe only; use --nvoices 0",
            ),
        );
    }
    let mut t: Vec<(&'static str, bool)> = Vec::new();
    t.push(("--out", flags.out.is_some()));
    t.push(("--eval", flags.evals.len() > 0));
    t.push(("--compare/--ref/--check", verification_requested(flags)));
    t.push(("--freqresp", flags.freqresp.is_some()));
    assert(t@ =~= scalar_only_table(*flags));
    refuse_flag(t.as_slice(), " operates on the scalar Probe only; use --nvoices 0")
}

} // verus!

//! The lines of a text: the pieces between its line feeds, and how they
//! change when text is appended or prepended.

use vstd::prelude::*;

verus! {

/// Whether `s` holds no line feed.
pub open spec fn no_newline(s: Seq<char>) -> bool {
    forall|i: int| 0 <= i < s.len() ==> s[i] != '\n'
}

/// The lines of `s`: the pieces between its `\n`s, in order. There is always
/// one more piece than there are `\n`s; the last one is empty when `s` ends
/// with a `\n`.
pub open spec fn lines_of(s: Seq<char>) -> Seq<Seq<char>>
    decreases s.len(),
{
    if s.len() == 0 {
        seq![Seq::<char>::empty()]
    } else {
        let p = lines_of(s.drop_last());
        if s.last() == '\n' {
            p.push(Seq::<char>::empty())
        } else {
            p.update(p.len() - 1, p.last().push(s.last()))
        }
    }
}

/// There is always at least one line.
pub proof fn lemma_lines_nonempty(s: Seq<char>)
    ensures
        lines_of(s).len() >= 1,
    decreases s.len(),
{
    if s.len() > 0 {
        lemma_lines_nonempty(s.drop_last());
    }
}

/// A line feed closes the last line and opens an empty one.
pub proof fn lemma_lines_newline(a: Seq<char>)
    ensures
        lines_of(a.push('\n')) == lines_of(a).push(Seq::<char>::empty()),
{
    assert(a.push('\n').drop_last() == a);
}

/// Text without a line feed extends the last line.
pub proof fn lemma_lines_plain(a: Seq<char>, w: Seq<char>)
    requires
        no_newline(w),
    ensures
        lines_of(a + w).len() == lines_of(a).len(),
        lines_of(a + w) == lines_of(a).update(
            lines_of(a).len() - 1,
            lines_of(a).last() + w,
        ),
    decreases w.len(),
{
    lemma_lines_nonempty(a);
    if w.len() == 0 {
        assert(a + w == a);
        assert(lines_of(a).last() + w == lines_of(a).last());
        assert(lines_of(a).update(lines_of(a).len() - 1, lines_of(a).last()) == lines_of(a));
    } else {
        let v = w.drop_last();
        let c = w.last();
        assert(no_newline(v));
        lemma_lines_plain(a, v);
        assert((a + w).drop_last() == a + v);
        assert((a + w).last() == c);
        assert(c != '\n');
        assert((lines_of(a).last() + v).push(c) == lines_of(a).last() + w);
        assert(lines_of(a + w) == lines_of(a).update(
            lines_of(a).len() - 1,
            lines_of(a).last() + w,
        ));
    }
}

/// Appending text leaves every line but the last unchanged.
pub proof fn lemma_lines_append(a: Seq<char>, b: Seq<char>)
    ensures
        lines_of(a + b).len() >= lines_of(a).len(),
        forall|i: int| 0 <= i < lines_of(a).len() - 1 ==> #[trigger] lines_of(a + b)[i] == lines_of(a)[i],
    decreases b.len(),
{
    lemma_lines_nonempty(a);
    if b.len() == 0 {
        assert(a + b == a);
    } else {
        let v = b.drop_last();
        lemma_lines_append(a, v);
        lemma_lines_nonempty(a + v);
        assert((a + b).drop_last() == a + v);
    }
}

/// Text without a line feed put in front of `s` extends its first line.
pub proof fn lemma_lines_prepend(w: Seq<char>, s: Seq<char>)
    requires
        no_newline(w),
    ensures
        lines_of(w + s).len() == lines_of(s).len(),
        lines_of(w + s)[0] == w + lines_of(s)[0],
        forall|i: int| 0 < i < lines_of(s).len() ==> #[trigger] lines_of(w + s)[i] == lines_of(s)[i],
    decreases s.len(),
{
    lemma_lines_nonempty(s);
    if s.len() == 0 {
        assert(w + s == w);
        lemma_lines_plain(Seq::<char>::empty(), w);
        assert(Seq::<char>::empty() + w == w);
        assert(w + Seq::<char>::empty() == w);
    } else {
        let v = s.drop_last();
        lemma_lines_prepend(w, v);
        lemma_lines_nonempty(v);
        assert((w + s).drop_last() == w + v);
        assert((w + s).last() == s.last());
        if s.last() != '\n' && lines_of(v).len() == 1 {
            assert((w + lines_of(v)[0]).push(s.last()) == w + lines_of(v)[0].push(s.last()));
        }
    }
}

} // verus!

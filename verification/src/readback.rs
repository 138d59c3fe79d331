//! What the NumPy reader makes of the header the writer writes: the shape
//! and the element width that were written.

use vstd::prelude::*;
use vstd::utf8::{decode_utf8, encode_utf8, is_ascii_chars, valid_utf8};
use crate::audio::{
    ascii_bytes, le16, npy_dict, npy_dict_shape, npy_field, npy_magic, npy_magic6, npy_padding,
    npy_text, parse_dims, skip_colons_spaces, spec_npy_header, spec_npy_shape, u16_of,
};
use crate::cli::has_prefix;
use crate::text::{
    all_digits, decimal, decimal_value, digit_char, digit_value, find_from, is_whitespace,
    occurs_at, spec_parse_usize, split_char, trim, trim_end, trim_start, unsigned_digits,
};

verus! {

/// `p` does not occur at `j` when one of its characters differs there.
proof fn lemma_not_at(s: Seq<char>, p: Seq<char>, j: int, d: int)
    requires
        0 <= d < p.len(),
        0 <= j,
        j + d < s.len(),
        s[j + d] != p[d],
    ensures
        !occurs_at(s, p, j),
{
    if occurs_at(s, p, j) {
        assert(s.subrange(j, j + p.len())[d] == s[j + d]);
    }
}

/// The first occurrence from `i` on is at `k` when `p` occurs there and at
/// no index between.
proof fn lemma_first_at(s: Seq<char>, p: Seq<char>, i: int, k: int)
    requires
        0 <= i <= k,
        occurs_at(s, p, k),
        forall|j: int| i <= j < k ==> !occurs_at(s, p, j),
    ensures
        find_from(s, p, i) == Some(k),
    decreases k - i,
{
    if i < k {
        assert(!occurs_at(s, p, i));
        lemma_first_at(s, p, i + 1, k);
    }
}

/// A digit is the digit of its value.
proof fn lemma_digit(d: nat)
    requires
        d < 10,
    ensures
        is_digit_char(digit_char(d)),
        digit_value(digit_char(d)) == d,
{
    assert(digit_char(d) as int == d + 48);
}

/// The characters of decimal digits.
pub open spec fn is_digit_char(c: char) -> bool {
    '0' <= c && c <= '9'
}

/// The decimal text of a number holds digits only, and reads back as it.
proof fn lemma_decimal_digits(n: nat)
    ensures
        decimal(n).len() >= 1,
        all_digits(decimal(n)),
        decimal_value(decimal(n)) == n,
        forall|i: int| 0 <= i < decimal(n).len() ==> #[trigger] is_digit_char(decimal(n)[i]),
    decreases n,
{
    lemma_digit(n % 10);
    if n >= 10 {
        lemma_decimal_digits(n / 10);
        let s = decimal(n / 10);
        assert(decimal(n) == s.push(digit_char(n % 10)));
        assert(decimal(n).drop_last() =~= s);
        assert(decimal(n).last() == digit_char(n % 10));
        assert((n / 10) * 10 + n % 10 == n) by (nonlinear_arith);
    } else {
        assert(decimal(n).drop_last() =~= Seq::<char>::empty());
        assert(decimal_value(Seq::<char>::empty()) == 0);
        assert(n % 10 == n);
    }
}

/// The decimal text of a `usize` is read back as it.
proof fn lemma_parse_decimal(n: nat)
    requires
        n <= usize::MAX,
    ensures
        spec_parse_usize(decimal(n)) == Some(n as usize),
{
    lemma_decimal_digits(n);
    assert(is_digit_char(decimal(n)[0]));
    assert(unsigned_digits(decimal(n)) == decimal(n));
}

/// Digits have no whitespace to trim.
proof fn lemma_trim_digits(s: Seq<char>)
    requires
        s.len() >= 1,
        forall|i: int| 0 <= i < s.len() ==> #[trigger] is_digit_char(s[i]),
    ensures
        trim(seq![' '] + s) == s,
        trim(s) == s,
{
    assert(is_digit_char(s[0]));
    assert(is_digit_char(s[s.len() - 1]));
    assert(!is_whitespace(s[0]));
    assert(!is_whitespace(s.last()));
    assert((seq![' '] + s).drop_first() =~= s);
    assert(trim_start(s) == s);
    assert(trim_start(seq![' '] + s) == trim_start(s));
}

/// The first piece of `a + c + b` between copies of `c` is `a`, when `a`
/// holds no `c`.
proof fn lemma_split_first(a: Seq<char>, b: Seq<char>, c: char)
    requires
        forall|i: int| 0 <= i < a.len() ==> a[i] != c,
    ensures
        split_char(a.push(c) + b, c)[0] == a,
        split_char(a.push(c) + b, c).len() >= 2,
    decreases b.len(),
{
    if b.len() == 0 {
        assert(a.push(c) + b =~= a.push(c));
        lemma_split_plain(a, c);
        assert(a.push(c).drop_last() =~= a);
    } else {
        lemma_split_first(a, b.drop_last(), c);
        assert((a.push(c) + b).drop_last() =~= a.push(c) + b.drop_last());
    }
}

/// A text without `c` is one piece.
proof fn lemma_split_plain(a: Seq<char>, c: char)
    requires
        forall|i: int| 0 <= i < a.len() ==> a[i] != c,
    ensures
        split_char(a, c) == seq![a],
    decreases a.len(),
{
    if a.len() > 0 {
        lemma_split_plain(a.drop_last(), c);
        assert(a.drop_last().push(a.last()) =~= a);
        assert(seq![a.drop_last()].update(0, a) =~= seq![a]);
    } else {
        assert(a =~= Seq::<char>::empty());
    }
}

/// `a , b`, neither holding a comma, is the two pieces `a` and `b`.
proof fn lemma_split_pair(a: Seq<char>, b: Seq<char>)
    requires
        forall|i: int| 0 <= i < a.len() ==> a[i] != ',',
        forall|i: int| 0 <= i < b.len() ==> b[i] != ',',
    ensures
        split_char(a.push(',') + b, ',') == seq![a, b],
    decreases b.len(),
{
    if b.len() == 0 {
        assert(a.push(',') + b =~= a.push(','));
        lemma_split_plain(a, ',');
        assert(a.push(',').drop_last() =~= a);
        assert(b =~= Seq::<char>::empty());
        assert(seq![a].push(Seq::<char>::empty()) =~= seq![a, b]);
    } else {
        lemma_split_pair(a, b.drop_last());
        assert((a.push(',') + b).drop_last() =~= a.push(',') + b.drop_last());
        assert(b.drop_last().push(b.last()) =~= b);
        assert(seq![a, b.drop_last()].update(1, b) =~= seq![a, b]);
    }
}

/// What the dict of a `.npy` header begins with, up to its shape.
pub open spec fn npy_head(wide: bool) -> Seq<char> {
    "{'descr': '"@ + (if wide { "<f8"@ } else { "<f4"@ }) + "', 'fortran_order': False, 'shape': ("@
}

/// What follows the dimensions in the dict as written.
pub open spec fn npy_tail(frames: nat, channels: nat, wide: bool) -> Seq<char> {
    ", }"@ + Seq::new(npy_padding(npy_dict(frames, channels, wide).len()), |i: int| ' ') + "\n"@
}

/// The dimensions as written between the parentheses.
pub open spec fn npy_inside(frames: nat, channels: nat) -> Seq<char> {
    decimal(frames) + ", "@ + decimal(channels)
}

/// The text of the dict as written, in its three parts.
proof fn lemma_text_parts(frames: nat, channels: nat, wide: bool)
    ensures
        npy_head(wide).len() == 51,
        npy_text(frames, channels, wide) == npy_head(wide) + npy_inside(frames, channels).push(')')
            + npy_tail(frames, channels, wide),
{
    reveal_strlit("{'descr': '");
    reveal_strlit("<f8");
    reveal_strlit("<f4");
    reveal_strlit("', 'fortran_order': False, 'shape': (");
    reveal_strlit(", ");
    reveal_strlit("), }");
    reveal_strlit(", }");
    assert("), }"@ =~= seq![')'] + ", }"@);
    assert(npy_text(frames, channels, wide) =~= npy_head(wide) + npy_inside(frames, channels).push(')')
        + npy_tail(frames, channels, wide));
}

/// The value of `'descr'` is the element type written.
proof fn lemma_descr(t: Seq<char>, wide: bool)
    requires
        t.len() >= 51,
        t.take(51) == npy_head(wide),
    ensures
        npy_field(t, "'descr'"@) == Ok::<Seq<char>, Seq<char>>(t.skip(10)),
        wide ==> has_prefix(t.skip(10), "'<f8'"@),
        !wide ==> !has_prefix(t.skip(10), "'<f8'"@) && has_prefix(t.skip(10), "'<f4'"@),
{
    reveal_strlit("{'descr': '");
    reveal_strlit("<f8");
    reveal_strlit("<f4");
    reveal_strlit("', 'fortran_order': False, 'shape': (");
    reveal_strlit("'descr'");
    reveal_strlit("'<f8'");
    reveal_strlit("'<f4'");
    assert(forall|i: int| 0 <= i < 51 ==> t[i] == npy_head(wide)[i]) by {
        assert forall|i: int| 0 <= i < 51 implies t[i] == npy_head(wide)[i] by {
            assert(t.take(51)[i] == t[i]);
        }
    }
    let kd = "'descr'"@;
    lemma_not_at(t, kd, 0, 0);
    assert(t.subrange(1, 8) =~= kd);
    lemma_first_at(t, kd, 0, 1);
    assert(t.skip(8).drop_first() =~= t.skip(9));
    assert(t.skip(9).drop_first() =~= t.skip(10));
    assert(skip_colons_spaces(t.skip(8)) == skip_colons_spaces(t.skip(9)));
    assert(skip_colons_spaces(t.skip(9)) == skip_colons_spaces(t.skip(10)));
    assert(skip_colons_spaces(t.skip(10)) == t.skip(10));
    if wide {
        assert(t.skip(10).take(5) =~= "'<f8'"@);
    } else {
        assert(t.skip(10).take(5) =~= "'<f4'"@);
        if has_prefix(t.skip(10), "'<f8'"@) {
            assert(t.skip(10).take(5)[3] == "'<f8'"@[3]);
        }
    }
}

/// The value of `'fortran_order'` is `False`.
proof fn lemma_order(t: Seq<char>, wide: bool)
    requires
        t.len() >= 51,
        t.take(51) == npy_head(wide),
    ensures
        npy_field(t, "'fortran_order'"@) == Ok::<Seq<char>, Seq<char>>(t.skip(34)),
        !has_prefix(t.skip(34), "True"@),
{
    reveal_strlit("{'descr': '");
    reveal_strlit("<f8");
    reveal_strlit("<f4");
    reveal_strlit("', 'fortran_order': False, 'shape': (");
    reveal_strlit("'fortran_order'");
    reveal_strlit("True");
    assert(forall|i: int| 0 <= i < 51 ==> t[i] == npy_head(wide)[i]) by {
        assert forall|i: int| 0 <= i < 51 implies t[i] == npy_head(wide)[i] by {
            assert(t.take(51)[i] == t[i]);
        }
    }
    let kf = "'fortran_order'"@;
    lemma_not_at(t, kf, 0, 0);
    lemma_not_at(t, kf, 1, 1);
    lemma_not_at(t, kf, 2, 0);
    lemma_not_at(t, kf, 3, 0);
    lemma_not_at(t, kf, 4, 0);
    lemma_not_at(t, kf, 5, 0);
    lemma_not_at(t, kf, 6, 0);
    lemma_not_at(t, kf, 7, 1);
    lemma_not_at(t, kf, 8, 0);
    lemma_not_at(t, kf, 9, 0);
    lemma_not_at(t, kf, 10, 1);
    lemma_not_at(t, kf, 11, 0);
    lemma_not_at(t, kf, 12, 0);
    lemma_not_at(t, kf, 13, 0);
    lemma_not_at(t, kf, 14, 1);
    lemma_not_at(t, kf, 15, 0);
    lemma_not_at(t, kf, 16, 0);
    assert(t.subrange(17, 32) =~= kf);
    lemma_first_at(t, kf, 0, 17);
    assert(t.skip(32).drop_first() =~= t.skip(33));
    assert(t.skip(33).drop_first() =~= t.skip(34));
    assert(skip_colons_spaces(t.skip(32)) == skip_colons_spaces(t.skip(33)));
    assert(skip_colons_spaces(t.skip(33)) == skip_colons_spaces(t.skip(34)));
    assert(skip_colons_spaces(t.skip(34)) == t.skip(34));
    if has_prefix(t.skip(34), "True"@) {
        assert(t.skip(34).take(4)[0] == "True"@[0]);
    }
}

/// The value of `'shape'` opens its parenthesis right away.
proof fn lemma_shape(t: Seq<char>, wide: bool)
    requires
        t.len() >= 51,
        t.take(51) == npy_head(wide),
    ensures
        npy_field(t, "'shape'"@) == Ok::<Seq<char>, Seq<char>>(t.skip(50)),
        has_prefix(t.skip(50), "("@),
{
    reveal_strlit("{'descr': '");
    reveal_strlit("<f8");
    reveal_strlit("<f4");
    reveal_strlit("', 'fortran_order': False, 'shape': (");
    reveal_strlit("'shape'");
    reveal_strlit("(");
    assert(forall|i: int| 0 <= i < 51 ==> t[i] == npy_head(wide)[i]) by {
        assert forall|i: int| 0 <= i < 51 implies t[i] == npy_head(wide)[i] by {
            assert(t.take(51)[i] == t[i]);
        }
    }
    let ks = "'shape'"@;
    lemma_not_at(t, ks, 0, 0);
    lemma_not_at(t, ks, 1, 1);
    lemma_not_at(t, ks, 2, 0);
    lemma_not_at(t, ks, 3, 0);
    lemma_not_at(t, ks, 4, 0);
    lemma_not_at(t, ks, 5, 0);
    lemma_not_at(t, ks, 6, 0);
    lemma_not_at(t, ks, 7, 1);
    lemma_not_at(t, ks, 8, 0);
    lemma_not_at(t, ks, 9, 0);
    lemma_not_at(t, ks, 10, 1);
    lemma_not_at(t, ks, 11, 0);
    lemma_not_at(t, ks, 12, 0);
    lemma_not_at(t, ks, 13, 0);
    lemma_not_at(t, ks, 14, 1);
    lemma_not_at(t, ks, 15, 0);
    lemma_not_at(t, ks, 16, 0);
    lemma_not_at(t, ks, 17, 1);
    lemma_not_at(t, ks, 18, 0);
    lemma_not_at(t, ks, 19, 0);
    lemma_not_at(t, ks, 20, 0);
    lemma_not_at(t, ks, 21, 0);
    lemma_not_at(t, ks, 22, 0);
    lemma_not_at(t, ks, 23, 0);
    lemma_not_at(t, ks, 24, 0);
    lemma_not_at(t, ks, 25, 0);
    lemma_not_at(t, ks, 26, 0);
    lemma_not_at(t, ks, 27, 0);
    lemma_not_at(t, ks, 28, 0);
    lemma_not_at(t, ks, 29, 0);
    lemma_not_at(t, ks, 30, 0);
    lemma_not_at(t, ks, 31, 1);
    lemma_not_at(t, ks, 32, 0);
    lemma_not_at(t, ks, 33, 0);
    lemma_not_at(t, ks, 34, 0);
    lemma_not_at(t, ks, 35, 0);
    lemma_not_at(t, ks, 36, 0);
    lemma_not_at(t, ks, 37, 0);
    lemma_not_at(t, ks, 38, 0);
    lemma_not_at(t, ks, 39, 0);
    lemma_not_at(t, ks, 40, 0);
    assert(t.subrange(41, 48) =~= ks);
    lemma_first_at(t, ks, 0, 41);
    assert(t.skip(48).drop_first() =~= t.skip(49));
    assert(t.skip(49).drop_first() =~= t.skip(50));
    assert(skip_colons_spaces(t.skip(48)) == skip_colons_spaces(t.skip(49)));
    assert(skip_colons_spaces(t.skip(49)) == skip_colons_spaces(t.skip(50)));
    assert(skip_colons_spaces(t.skip(50)) == t.skip(50));
    assert(t.skip(50).take(1) =~= "("@);
}

/// The dimensions as written are read back.
proof fn lemma_dims(frames: nat, channels: nat, rest: Seq<char>)
    requires
        frames <= usize::MAX,
        channels <= usize::MAX,
    ensures
        split_char(npy_inside(frames, channels).push(')') + rest, ')')[0] == npy_inside(frames, channels),
        parse_dims(
            split_char(npy_inside(frames, channels), ','),
            split_char(npy_inside(frames, channels), ',').len(),
            npy_inside(frames, channels),
        ) == Ok::<Seq<usize>, Seq<char>>(seq![frames as usize, channels as usize]),
{
    reveal_strlit(", ");
    let df = decimal(frames);
    let dc = decimal(channels);
    lemma_decimal_digits(frames);
    lemma_decimal_digits(channels);
    let inside = npy_inside(frames, channels);
    assert forall|i: int| 0 <= i < inside.len() implies inside[i] != ')' by {
        if i < df.len() {
            assert(is_digit_char(df[i]));
        } else if i >= df.len() + 2 {
            assert(is_digit_char(dc[i - df.len() - 2]));
        }
    }
    lemma_split_first(inside, rest, ')');
    assert(inside =~= df.push(',') + (seq![' '] + dc));
    assert forall|i: int| 0 <= i < df.len() implies df[i] != ',' by {
        assert(is_digit_char(df[i]));
    }
    assert forall|i: int| 0 <= i < (seq![' '] + dc).len() implies (seq![' '] + dc)[i] != ',' by {
        if i > 0 {
            assert(is_digit_char(dc[i - 1]));
        }
    }
    lemma_split_pair(df, seq![' '] + dc);
    let pieces = split_char(inside, ',');
    lemma_trim_digits(df);
    lemma_trim_digits(dc);
    lemma_parse_decimal(frames);
    lemma_parse_decimal(channels);
    assert(parse_dims(pieces, 0, inside) == Ok::<Seq<usize>, Seq<char>>(Seq::empty()));
    assert(parse_dims(pieces, 1, inside) == Ok::<Seq<usize>, Seq<char>>(seq![frames as usize]));
    assert(pieces[1] == seq![' '] + dc);
    assert(trim(pieces[1]) == dc);
    assert(seq![frames as usize].push(channels as usize) =~= seq![frames as usize, channels as usize]);
    assert(parse_dims(pieces, 2, inside) == Ok::<Seq<usize>, Seq<char>>(seq![frames as usize, channels as usize]));
}

/// The dict the writer writes is read as the shape it was written with.
proof fn lemma_dict_read_back(frames: nat, channels: nat, wide: bool, at: nat)
    requires
        frames <= usize::MAX,
        channels <= usize::MAX,
    ensures
        npy_dict_shape(npy_text(frames, channels, wide), at) == Ok::<(nat, nat, nat, nat, Seq<char>), Seq<char>>(
            (
                if wide {
                    8nat
                } else {
                    4nat
                },
                frames,
                channels,
                at,
                npy_inside(frames, channels),
            ),
        ),
{
    lemma_text_parts(frames, channels, wide);
    let t = npy_text(frames, channels, wide);
    let inside = npy_inside(frames, channels);
    let tail = npy_tail(frames, channels, wide);
    assert(t.take(51) =~= npy_head(wide));
    lemma_descr(t, wide);
    lemma_order(t, wide);
    lemma_shape(t, wide);
    assert(t.skip(50).skip(1) =~= inside.push(')') + tail);
    lemma_dims(frames, channels, tail);
}

/// The dict as written is ASCII text.
proof fn lemma_text_ascii(frames: nat, channels: nat, wide: bool)
    ensures
        is_ascii_chars(npy_text(frames, channels, wide)),
{
    reveal_strlit("{'descr': '");
    reveal_strlit("<f8");
    reveal_strlit("<f4");
    reveal_strlit("', 'fortran_order': False, 'shape': (");
    reveal_strlit(", ");
    reveal_strlit(", }");
    reveal_strlit("\n");
    lemma_text_parts(frames, channels, wide);
    lemma_decimal_digits(frames);
    lemma_decimal_digits(channels);
    let t = npy_text(frames, channels, wide);
    let head = npy_head(wide);
    let inside = npy_inside(frames, channels);
    let tail = npy_tail(frames, channels, wide);
    let df = decimal(frames);
    let dc = decimal(channels);
    assert forall|i: int| 0 <= i < t.len() implies '\0' <= #[trigger] t[i] <= '\u{7f}' by {
        if i < 51 {
            assert(t[i] == head[i]);
        } else if i < 51 + inside.len() {
            let k = i - 51;
            assert(t[i] == inside[k]);
            if k < df.len() {
                assert(is_digit_char(df[k]));
            } else if k >= df.len() + 2 {
                assert(is_digit_char(dc[k - df.len() - 2]));
            }
        } else if i == 51 + inside.len() {
        } else {
            assert(t[i] == tail[i - 52 - inside.len()]);
        }
    }
}

/// The dict as written is at most a few hundred characters.
proof fn lemma_text_short(frames: nat, channels: nat, wide: bool)
    requires
        frames <= usize::MAX,
        channels <= usize::MAX,
    ensures
        npy_text(frames, channels, wide).len() < 65536,
{
    reveal_strlit(", ");
    reveal_strlit(", }");
    reveal_strlit("\n");
    lemma_text_parts(frames, channels, wide);
    crate::audio::lemma_usize_digits(frames as usize);
    crate::audio::lemma_usize_digits(channels as usize);
}

/// What the writer writes for a render, followed by anything, is read by
/// the NumPy reader as the shape and the element width it was written with,
/// with the data right behind the header.
pub proof fn lemma_npy_read_back(frames: nat, channels: nat, wide: bool, data: Seq<u8>)
    requires
        frames <= usize::MAX,
        channels <= usize::MAX,
    ensures
        spec_npy_shape(spec_npy_header(frames, channels, wide) + data) == Ok::<(nat, nat, nat, nat, Seq<char>), Seq<char>>(
            (
                if wide {
                    8nat
                } else {
                    4nat
                },
                frames,
                channels,
                spec_npy_header(frames, channels, wide).len(),
                decimal(frames) + ", "@ + decimal(channels),
            ),
        ),
{
    broadcast use vstd::utf8::group_utf8_lib;

    let t = npy_text(frames, channels, wide);
    let len = t.len();
    lemma_text_short(frames, channels, wide);
    lemma_text_ascii(frames, channels, wide);
    let h = spec_npy_header(frames, channels, wide);
    let b = h + data;
    assert(h == npy_magic() + le16(len) + ascii_bytes(t));
    assert(h.len() == 10 + len);
    assert(b.subrange(0, 6) =~= npy_magic6());
    assert(b[6] == 1);
    assert(b.subrange(8, 10) =~= le16(len));
    crate::audio::lemma_u16_at(b, 8, len);
    assert(u16_of(b, 8) == len);
    assert(ascii_bytes(t) =~= encode_utf8(t));
    assert(b.subrange(10, (10 + len) as int) =~= ascii_bytes(t));
    lemma_dict_read_back(frames, channels, wide, 10 + len);
}

} // verus!

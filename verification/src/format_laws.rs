//! What the clipboard parser and generator promise together: the text that
//! `generate` writes reads back, through `parse`, as the same curve (with a
//! negative zero read as zero), so a curve survives a copy/paste round trip.
use vstd::prelude::*;

use crate::curve::{ControlPoint, CurveView};
use crate::text::{
    decimal, digits_value, find, find_from, hex_digits, is_upper_hex, is_whitespace, lemma_find_bounds,
    lemma_decimal, lemma_decimal_parse, lemma_find_first, lemma_find_first_char, lemma_find_none,
    lemma_hex_digits, lemma_pow16_8, lemma_trim_unchanged, parse_u32_radix, starts_with, trim,
    trim_end, trim_start,
};
use crate::zebra_format::{
    initial_view, pair_needle, single, spec_extract_pair, spec_fmt_bits, spec_fmt_pair,
    spec_generate, spec_handle_text, spec_header_id, spec_header_line, spec_header_morph,
    spec_parse, spec_parse_hex, spec_parse_line, spec_parse_point, spec_parse_text,
    spec_point_line, spec_points_text, strip_cr,
};

verus! {

broadcast use vstd::string::group_string_axioms;

// ── what a round trip keeps ─────────────────────────────────────────────────

/// The bits the parser reads back for a coordinate: a negative zero is
/// written as `0` and comes back as positive zero.
pub open spec fn normalize_bits(v: u32) -> u32 {
    if v == 0x8000_0000 {
        0
    } else {
        v
    }
}

/// `normalize_bits` on both coordinates.
pub open spec fn normalize_pair(p: (u32, u32)) -> (u32, u32) {
    (normalize_bits(p.0), normalize_bits(p.1))
}

/// `normalize_bits` on every coordinate of a control point.
pub open spec fn normalize_point(p: ControlPoint) -> ControlPoint {
    ControlPoint {
        position: normalize_pair(p.position),
        incoming: match p.incoming {
            Some(h) => Some(normalize_pair(h)),
            None => None,
        },
        outgoing: match p.outgoing {
            Some(h) => Some(normalize_pair(h)),
            None => None,
        },
    }
}

/// The curve as the parser reads back what `generate` wrote for it.
pub open spec fn normalized(c: CurveView) -> CurveView {
    CurveView {
        points: c.points.map_values(|p: ControlPoint| normalize_point(p)),
        curve_id: c.curve_id,
        morph_type: c.morph_type,
    }
}

/// A morph type survives the format where it holds neither a quote (which
/// would end it) nor a line break (which would end its line).
pub open spec fn morph_type_ok(m: Seq<char>) -> bool {
    forall|i: int| 0 <= i < m.len() ==> #[trigger] m[i] != '\'' && m[i] != '\n'
}

// ── characters ──────────────────────────────────────────────────────────────

/// `c` does not occur in `s`.
pub open spec fn lacks(s: Seq<char>, c: char) -> bool {
    forall|i: int| 0 <= i < s.len() ==> #[trigger] s[i] != c
}

/// A character of a written pair: a hex digit or the slash.
pub open spec fn pair_char(c: char) -> bool {
    is_upper_hex(c) || c == '/'
}

/// Every character of `s` is one of a written pair.
pub open spec fn pair_chars(s: Seq<char>) -> bool {
    forall|i: int| 0 <= i < s.len() ==> pair_char(#[trigger] s[i])
}

proof fn lemma_lacks_concat(a: Seq<char>, b: Seq<char>, c: char)
    requires
        lacks(a, c),
        lacks(b, c),
    ensures
        lacks(a + b, c),
{
    assert forall|i: int| 0 <= i < (a + b).len() implies #[trigger] (a + b)[i] != c by {
        if i >= a.len() {
            assert((a + b)[i] == b[i - a.len()]);
        }
    }
}

proof fn lemma_pair_chars_lack(s: Seq<char>)
    requires
        pair_chars(s),
    ensures
        lacks(s, '\''),
        lacks(s, 'I'),
        lacks(s, 'O'),
        lacks(s, '\n'),
        lacks(s, 'M'),
{
    assert forall|i: int| 0 <= i < s.len() implies #[trigger] s[i] != '\'' && s[i] != 'I' && s[i]
        != 'O' && s[i] != '\n' && s[i] != 'M' by {
        assert(pair_char(s[i]));
    }
}

/// A written coordinate is one or more upper-case hex digits, and it reads
/// back as the coordinate with a negative zero made positive.
pub proof fn lemma_fmt_bits(v: u32)
    ensures
        spec_fmt_bits(v).len() > 0,
        forall|i: int|
            0 <= i < spec_fmt_bits(v).len() ==> is_upper_hex(#[trigger] spec_fmt_bits(v)[i]),
        spec_parse_hex(spec_fmt_bits(v)) == Some(normalize_bits(v)),
        spec_fmt_bits(normalize_bits(v)) == spec_fmt_bits(v),
{
    let f = spec_fmt_bits(v);
    if v == 0 || v == 0x8000_0000 {
        lemma_trim_unchanged(single('0'));
    } else {
        lemma_pow16_8();
        lemma_hex_digits(v as nat, 8);
        assert(is_upper_hex(f[0]));
        assert(is_upper_hex(f.last()));
        lemma_trim_unchanged(f);
        assert(f != single('0'));
        assert(f[0] != '+');
        assert(parse_u32_radix(f, 16) == Some(v));
    }
}

/// A written pair is hex digits, a slash, hex digits.
proof fn lemma_fmt_pair_chars(p: (u32, u32))
    ensures
        pair_chars(spec_fmt_pair(p)),
{
    lemma_fmt_bits(p.0);
    lemma_fmt_bits(p.1);
    let a = spec_fmt_bits(p.0);
    let b = spec_fmt_bits(p.1);
    let s = spec_fmt_pair(p);
    assert forall|i: int| 0 <= i < s.len() implies pair_char(#[trigger] s[i]) by {
        if i < a.len() {
            assert(s[i] == a[i]);
        } else if i == a.len() {
            assert(s[i] == '/');
        } else {
            assert(s[i] == b[i - a.len() - 1]);
        }
    }
}

// ── reading a written pair back ─────────────────────────────────────────────

/// A pair written after `key = '` at the first occurrence of that text reads
/// back as the pair with its zeros normalized.
proof fn lemma_extract_pair_at(
    line: Seq<char>,
    key: Seq<char>,
    pre: Seq<char>,
    p: (u32, u32),
    post: Seq<char>,
)
    requires
        key.len() > 0,
        line == pre + pair_needle(key) + spec_fmt_pair(p) + single('\'') + post,
        forall|i: int|
            0 <= i < pre.len() ==> #[trigger] line.subrange(i, i + pair_needle(key).len())
                != pair_needle(key),
    ensures
        spec_extract_pair(line, key) == Some(normalize_pair(p)),
{
    let n = pair_needle(key);
    let f = spec_fmt_pair(p);
    let a = spec_fmt_bits(p.0);
    let b = spec_fmt_bits(p.1);
    assert(line.subrange(pre.len() as int, pre.len() as int + n.len() as int) =~= n);
    lemma_find_first(line, n, 0, pre.len() as int);
    let start = (pre.len() + n.len()) as int;
    let tail = line.skip(start);
    assert(tail =~= f + single('\'') + post);
    lemma_fmt_pair_chars(p);
    lemma_pair_chars_lack(f);
    assert(tail.subrange(f.len() as int, f.len() as int + 1) =~= single('\''));
    assert forall|i: int| 0 <= i < f.len() implies tail[i] != single('\'')[0] by {
        assert(tail[i] == f[i]);
    }
    lemma_find_first_char(tail, single('\''), 0, f.len() as int);
    let field = line.subrange(start, start + f.len() as int);
    assert(field =~= f);
    lemma_fmt_bits(p.0);
    lemma_fmt_bits(p.1);
    assert(f.subrange(a.len() as int, a.len() as int + 1) =~= single('/'));
    assert forall|i: int| 0 <= i < a.len() implies f[i] != single('/')[0] by {
        assert(f[i] == a[i]);
        assert(is_upper_hex(a[i]));
    }
    lemma_find_first_char(f, single('/'), 0, a.len() as int);
    assert(f.take(a.len() as int) =~= a);
    assert(f.skip(a.len() as int + 1) =~= b);
}

/// Where the first letter of `key` does not occur in a line, the line has no
/// pair for `key`.
proof fn lemma_extract_pair_absent(line: Seq<char>, key: Seq<char>)
    requires
        key.len() > 0,
        lacks(line, key[0]),
    ensures
        spec_extract_pair(line, key) is None,
{
    let n = pair_needle(key);
    assert(n[0] == key[0]);
    lemma_find_none(line, n, 0);
}

/// The same as `lemma_extract_pair_at`, where the first letter of `key` does
/// not occur before the pair's text.
proof fn lemma_extract_pair_after(
    line: Seq<char>,
    key: Seq<char>,
    pre: Seq<char>,
    p: (u32, u32),
    post: Seq<char>,
)
    requires
        key.len() > 0,
        line == pre + pair_needle(key) + spec_fmt_pair(p) + single('\'') + post,
        lacks(pre, key[0]),
    ensures
        spec_extract_pair(line, key) == Some(normalize_pair(p)),
{
    let n = pair_needle(key);
    assert forall|i: int| 0 <= i < pre.len() implies #[trigger] line.subrange(i, i + n.len()) != n by {
        assert(line.subrange(i, i + n.len())[0] == pre[i]);
        assert(n[0] == key[0]);
    }
    lemma_extract_pair_at(line, key, pre, p, post);
}

/// The line of a control point reads back as the point, zeros normalized.
pub proof fn lemma_point_line(p: ControlPoint)
    ensures
        spec_parse_point(spec_point_line(p)) == Some(normalize_point(p)),
        trim(spec_point_line(p)) == spec_point_line(p),
        starts_with(spec_point_line(p), "PX XY"@),
        !starts_with(spec_point_line(p), "//"@),
        !starts_with(spec_point_line(p), "Curve ID ="@),
        lacks(spec_point_line(p), '\n'),
        spec_point_line(p).last() == '\'',
{
    reveal_strlit("PX XY = '");
    reveal_strlit(" IV = '");
    reveal_strlit(" OV = '");
    reveal_strlit("XY");
    reveal_strlit("IV");
    reveal_strlit("OV");
    reveal_strlit("PX XY");
    reveal_strlit("//");
    reveal_strlit("Curve ID =");
    let head = "PX XY = '"@;
    let fp = spec_fmt_pair(p.position);
    let hi = spec_handle_text(" IV = '"@, p.incoming);
    let ho = spec_handle_text(" OV = '"@, p.outgoing);
    let line = spec_point_line(p);
    assert(line == head + fp + single('\'') + hi + ho);
    lemma_fmt_pair_chars(p.position);
    lemma_pair_chars_lack(fp);
    assert(head =~= seq!['P', 'X', ' ', 'X', 'Y', ' ', '=', ' ', '\'']);
    // which letters occur where
    let iv_tag = " IV = '"@;
    let ov_tag = " OV = '"@;
    assert(iv_tag =~= seq![' ', 'I', 'V', ' ', '=', ' ', '\'']);
    assert(ov_tag =~= seq![' ', 'O', 'V', ' ', '=', ' ', '\'']);
    assert(lacks(head, 'I') && lacks(head, 'O') && lacks(head, '\n'));
    assert(lacks(single('\''), 'I') && lacks(single('\''), 'O') && lacks(single('\''), '\n'));
    match p.incoming {
        Some(h) => {
            lemma_fmt_pair_chars(h);
            lemma_pair_chars_lack(spec_fmt_pair(h));
            assert(hi == iv_tag + spec_fmt_pair(h) + single('\''));
            lemma_lacks_concat(iv_tag, spec_fmt_pair(h), 'O');
            lemma_lacks_concat(iv_tag + spec_fmt_pair(h), single('\''), 'O');
            lemma_lacks_concat(iv_tag, spec_fmt_pair(h), '\n');
            lemma_lacks_concat(iv_tag + spec_fmt_pair(h), single('\''), '\n');
        },
        None => {
            assert(hi =~= seq![]);
        },
    }
    match p.outgoing {
        Some(h) => {
            lemma_fmt_pair_chars(h);
            lemma_pair_chars_lack(spec_fmt_pair(h));
            assert(ho == ov_tag + spec_fmt_pair(h) + single('\''));
            lemma_lacks_concat(ov_tag, spec_fmt_pair(h), 'I');
            lemma_lacks_concat(ov_tag + spec_fmt_pair(h), single('\''), 'I');
            lemma_lacks_concat(ov_tag, spec_fmt_pair(h), '\n');
            lemma_lacks_concat(ov_tag + spec_fmt_pair(h), single('\''), '\n');
        },
        None => {
            assert(ho =~= seq![]);
        },
    }
    assert(lacks(hi, 'O') && lacks(hi, '\n'));
    assert(lacks(ho, 'I') && lacks(ho, '\n'));
    let base = head + fp + single('\'');
    lemma_lacks_concat(head, fp, 'I');
    lemma_lacks_concat(head + fp, single('\''), 'I');
    lemma_lacks_concat(head, fp, 'O');
    lemma_lacks_concat(head + fp, single('\''), 'O');
    lemma_lacks_concat(head, fp, '\n');
    lemma_lacks_concat(head + fp, single('\''), '\n');
    lemma_lacks_concat(base, hi, 'O');
    lemma_lacks_concat(base, hi, '\n');
    lemma_lacks_concat(base + hi, ho, '\n');
    assert(line =~= base + hi + ho);
    // the position
    let xy_pre = seq!['P', 'X', ' '];
    assert(line =~= xy_pre + pair_needle("XY"@) + fp + single('\'') + (hi + ho));
    assert forall|i: int|
        0 <= i < xy_pre.len() implies #[trigger] line.subrange(i, i + pair_needle("XY"@).len())
        != pair_needle("XY"@) by {
        if i == 1 {
            assert(line.subrange(i, i + 6)[1] != pair_needle("XY"@)[1]);
        } else {
            assert(line.subrange(i, i + 6)[0] != pair_needle("XY"@)[0]);
        }
    }
    lemma_extract_pair_at(line, "XY"@, xy_pre, p.position, hi + ho);
    // the incoming handle
    match p.incoming {
        Some(h) => {
            let pre = base + seq![' '];
            assert(line =~= pre + pair_needle("IV"@) + spec_fmt_pair(h) + single('\'') + ho);
            lemma_lacks_concat(base, seq![' '], 'I');
            lemma_extract_pair_after(line, "IV"@, pre, h, ho);
        },
        None => {
            lemma_lacks_concat(base, ho, 'I');
            assert(line =~= base + ho);
            lemma_extract_pair_absent(line, "IV"@);
        },
    }
    // the outgoing handle
    match p.outgoing {
        Some(h) => {
            let pre = base + hi + seq![' '];
            assert(line =~= pre + pair_needle("OV"@) + spec_fmt_pair(h) + single('\''));
            lemma_lacks_concat(base + hi, seq![' '], 'O');
            assert(line =~= pre + pair_needle("OV"@) + spec_fmt_pair(h) + single('\'') + seq![]);
            lemma_extract_pair_after(line, "OV"@, pre, h, seq![]);
        },
        None => {
            assert(line =~= base + hi);
            lemma_extract_pair_absent(line, "OV"@);
        },
    }
    // the line's first and last characters
    assert(line[0] == 'P');
    assert(line.last() == '\'') by {
        match p.outgoing {
            Some(h) => {
                assert(ho.last() == '\'');
            },
            None => match p.incoming {
                Some(h) => {
                    assert(hi.last() == '\'');
                },
                None => {
                    assert(line =~= base);
                },
            },
        }
    }
    lemma_trim_unchanged(line);
    assert(line.subrange(0, 5) =~= "PX XY"@);
    assert(line.subrange(0, 2)[0] != "//"@[0]);
    if line.len() >= 10 {
        assert(line.subrange(0, 10)[0] != "Curve ID ="@[0]);
    }
}

// ── reading written lines back ──────────────────────────────────────────────

/// The text of the `Curve ID` line after its `Curve ID =` prefix.
pub open spec fn header_rest(c: CurveView) -> Seq<char> {
    seq![' '] + decimal(c.curve_id as nat) + " MorphType = '"@ + c.morph_type + single('\'')
}

/// The letters of ` MorphType = '`.
proof fn lemma_morph_tag()
    ensures
        " MorphType = '"@ =~= seq![
            ' ',
            'M',
            'o',
            'r',
            'p',
            'h',
            'T',
            'y',
            'p',
            'e',
            ' ',
            '=',
            ' ',
            '\'',
        ],
{
    reveal_strlit(" MorphType = '");
}

/// The id on the `Curve ID` line reads back as the curve's id.
proof fn lemma_header_id(c: CurveView, id: u32)
    ensures
        spec_header_id(header_rest(c), id) == c.curve_id,
{
    reveal_strlit("MorphType");
    lemma_morph_tag();
    let d = decimal(c.curve_id as nat);
    lemma_decimal(c.curve_id as nat);
    lemma_decimal_parse(c.curve_id);
    let rest = header_rest(c);
    let p1 = seq![' '] + d + seq![' '];
    let key = "MorphType"@;
    assert(key =~= seq!['M', 'o', 'r', 'p', 'h', 'T', 'y', 'p', 'e']);
    assert(rest =~= p1 + key + seq![' ', '=', ' ', '\''] + c.morph_type + single('\''));
    assert(rest.subrange(p1.len() as int, p1.len() as int + key.len() as int) =~= key);
    assert forall|i: int| 0 <= i < p1.len() implies rest[i] != key[0] by {
        if 1 <= i < p1.len() - 1 {
            assert(rest[i] == d[i - 1]);
        }
    }
    lemma_find_first_char(rest, key, 0, p1.len() as int);
    assert(rest.take(p1.len() as int) =~= p1);
    let p1_tail = d + seq![' '];
    assert(p1.drop_first() =~= p1_tail);
    assert(is_whitespace(p1[0]));
    assert(!is_whitespace(p1_tail[0]));
    assert(trim_start(p1_tail) == p1_tail);
    assert(trim_start(p1) == trim_start(p1_tail));
    assert(p1_tail.drop_last() =~= d);
    assert(is_whitespace(p1_tail.last()));
    assert(!is_whitespace(d.last()));
    assert(trim_end(d) == d);
    assert(trim_end(p1_tail) == trim_end(d));
    assert(trim(p1) == d);
}

/// The morph type on the `Curve ID` line reads back as the curve's.
proof fn lemma_header_morph(c: CurveView, m0: Seq<char>)
    requires
        morph_type_ok(c.morph_type),
    ensures
        spec_header_morph(header_rest(c), m0) == c.morph_type,
{
    lemma_morph_tag();
    let d = decimal(c.curve_id as nat);
    lemma_decimal(c.curve_id as nat);
    let m = c.morph_type;
    let q = single('\'');
    let rest = header_rest(c);
    let p2 = seq![' '] + d + seq![' ', 'M', 'o', 'r', 'p', 'h', 'T', 'y', 'p', 'e', ' ', '=', ' '];
    assert(rest =~= p2 + q + (m + q));
    assert(rest.subrange(p2.len() as int, p2.len() as int + 1) =~= q);
    assert forall|i: int| 0 <= i < p2.len() implies rest[i] != q[0] by {
        if 1 <= i < 1 + d.len() {
            assert(rest[i] == d[i - 1]);
        }
    }
    lemma_find_first_char(rest, q, 0, p2.len() as int);
    let after = rest.skip(p2.len() as int + 1);
    assert(after =~= m + q);
    assert(after.subrange(m.len() as int, m.len() as int + 1) =~= q);
    assert forall|i: int| 0 <= i < m.len() implies after[i] != q[0] by {
        assert(after[i] == m[i]);
    }
    lemma_find_first_char(after, q, 0, m.len() as int);
    assert(rest.subrange(p2.len() as int + 1, p2.len() as int + 1 + m.len() as int) =~= m);
}

/// The `Curve ID` line holds no line break and ends with a quote.
proof fn lemma_header_line_shape(c: CurveView)
    requires
        morph_type_ok(c.morph_type),
    ensures
        lacks(spec_header_line(c), '\n'),
        spec_header_line(c).last() == '\'',
        spec_header_line(c)[0] == 'C',
        spec_header_line(c).skip(10) == header_rest(c),
        spec_header_line(c).subrange(0, 10) == "Curve ID ="@,
        spec_header_line(c).len() > 10,
        "Curve ID ="@.len() == 10,
{
    reveal_strlit("Curve ID = ");
    reveal_strlit("Curve ID =");
    lemma_morph_tag();
    let d = decimal(c.curve_id as nat);
    lemma_decimal(c.curve_id as nat);
    let m = c.morph_type;
    let tag = " MorphType = '"@;
    let line = spec_header_line(c);
    let lead = "Curve ID = "@;
    assert(lead =~= seq!['C', 'u', 'r', 'v', 'e', ' ', 'I', 'D', ' ', '=', ' ']);
    assert(line =~= lead + d + tag + m + single('\''));
    assert(line.skip(10) =~= header_rest(c));
    assert(line.subrange(0, 10) =~= "Curve ID ="@);
    assert forall|i: int| 0 <= i < line.len() implies #[trigger] line[i] != '\n' by {
        if 11 <= i < 11 + d.len() {
            assert(line[i] == d[i - 11]);
        } else if 11 + d.len() + 14 <= i < 11 + d.len() + 14 + m.len() {
            assert(line[i] == m[i - 11 - d.len() - 14]);
        }
    }
}

/// The `Curve ID` line reads back as the curve's id and morph type.
pub proof fn lemma_header_line(c: CurveView, st: CurveView)
    requires
        morph_type_ok(c.morph_type),
    ensures
        spec_parse_line(st, spec_header_line(c)) == Ok::<CurveView, Seq<char>>(
            CurveView { points: st.points, curve_id: c.curve_id, morph_type: c.morph_type },
        ),
        lacks(spec_header_line(c), '\n'),
        spec_header_line(c).last() == '\'',
{
    reveal_strlit("//");
    reveal_strlit("Curve ID =");
    let line = spec_header_line(c);
    lemma_header_line_shape(c);
    lemma_trim_unchanged(line);
    assert(trim(line) == line);
    assert(line.subrange(0, 2)[0] != "//"@[0]);
    assert(!starts_with(line, "//"@));
    assert(starts_with(line, "Curve ID ="@));
    lemma_header_id(c, st.curve_id);
    lemma_header_morph(c, st.morph_type);
    assert(trim(line).skip(10) == header_rest(c));
}

/// A line with no line break, followed by one, is read first.
pub proof fn lemma_parse_text_cons(l: Seq<char>, rest: Seq<char>, st: CurveView)
    requires
        lacks(l, '\n'),
        l.len() == 0 || l.last() != '\r',
    ensures
        spec_parse_text(l + single('\n') + rest, st) == match spec_parse_line(st, l) {
            Err(e) => Err(e),
            Ok(next) => spec_parse_text(rest, next),
        },
{
    let s = l + single('\n') + rest;
    assert(s.subrange(l.len() as int, l.len() as int + 1) =~= single('\n'));
    assert forall|i: int| 0 <= i < l.len() implies s[i] != single('\n')[0] by {
        assert(s[i] == l[i]);
    }
    lemma_find_first_char(s, single('\n'), 0, l.len() as int);
    assert(s.take(l.len() as int) =~= l);
    assert(strip_cr(l) == l);
    assert(s.skip(l.len() as int + 1) =~= rest);
}

/// The lines of control points read back as the points, zeros normalized,
/// appended to those read before.
pub proof fn lemma_parse_points(pts: Seq<ControlPoint>, st: CurveView)
    ensures
        spec_parse_text(spec_points_text(pts), st) == Ok::<CurveView, Seq<char>>(
            CurveView {
                points: st.points + pts.map_values(|p: ControlPoint| normalize_point(p)),
                curve_id: st.curve_id,
                morph_type: st.morph_type,
            },
        ),
    decreases pts.len(),
{
    let mapped = pts.map_values(|p: ControlPoint| normalize_point(p));
    if pts.len() == 0 {
        assert(st.points + mapped =~= st.points);
        assert(spec_points_text(pts) =~= seq![]);
    } else {
        let line = spec_point_line(pts[0]);
        let rest = pts.drop_first();
        lemma_point_line(pts[0]);
        lemma_parse_text_cons(line, spec_points_text(rest), st);
        assert(line.len() > 0);
        let next = CurveView {
            points: st.points.push(normalize_point(pts[0])),
            curve_id: st.curve_id,
            morph_type: st.morph_type,
        };
        assert(spec_parse_line(st, line) == Ok::<CurveView, Seq<char>>(next));
        lemma_parse_points(rest, next);
        assert(next.points + rest.map_values(|p: ControlPoint| normalize_point(p)) =~= st.points
            + mapped);
    }
}

/// A header line starting with `//` is skipped.
proof fn lemma_comment_line(l: Seq<char>, st: CurveView)
    requires
        l.len() >= 2,
        l[0] == '/',
        l[1] == '/',
        !is_whitespace(l.last()),
    ensures
        spec_parse_line(st, l) == Ok::<CurveView, Seq<char>>(st),
{
    reveal_strlit("//");
    lemma_trim_unchanged(l);
    assert(l.subrange(0, 2) =~= "//"@);
}

// ── the laws ────────────────────────────────────────────────────────────────

/// Copy/paste round trip: what `generate` writes for a curve, `parse` reads
/// back as the same curve (a negative zero coming back as zero), where the
/// morph type holds no quote and no line break; a curve without points reads
/// back as the error that no control points were found.
pub proof fn lemma_generate_parse(c: CurveView)
    requires
        morph_type_ok(c.morph_type),
    ensures
        c.points.len() > 0 ==> spec_parse(spec_generate(c)) == Ok::<CurveView, Seq<char>>(
            normalized(c),
        ),
        c.points.len() == 0 ==> spec_parse(spec_generate(c)) == Err::<CurveView, Seq<char>>(
            "No control points found"@,
        ),
{
    reveal_strlit("// u-he Bezier Curve");
    reveal_strlit("// Version 1.0");
    let h1 = "// u-he Bezier Curve"@;
    let h2 = "// Version 1.0"@;
    assert(h1 =~= seq![
        '/', '/', ' ', 'u', '-', 'h', 'e', ' ', 'B', 'e', 'z', 'i', 'e', 'r', ' ', 'C', 'u', 'r',
        'v', 'e',
    ]);
    assert(h2 =~= seq!['/', '/', ' ', 'V', 'e', 'r', 's', 'i', 'o', 'n', ' ', '1', '.', '0']);
    let nl = single('\n');
    let hd = spec_header_line(c);
    let pts = spec_points_text(c.points);
    let text = spec_generate(c);
    assert(text =~= h1 + nl + (h2 + nl + (hd + nl + pts)));
    let st0 = initial_view();
    lemma_comment_line(h1, st0);
    lemma_parse_text_cons(h1, h2 + nl + (hd + nl + pts), st0);
    lemma_comment_line(h2, st0);
    lemma_parse_text_cons(h2, hd + nl + pts, st0);
    lemma_header_line(c, st0);
    lemma_parse_text_cons(hd, pts, st0);
    let st1 = CurveView { points: st0.points, curve_id: c.curve_id, morph_type: c.morph_type };
    lemma_parse_points(c.points, st1);
    let mapped = c.points.map_values(|p: ControlPoint| normalize_point(p));
    assert(st1.points + mapped =~= mapped);
}

/// Writing a curve read back from what was written gives the same text: a
/// copy/paste round trip leaves the clipboard text as it was.
pub proof fn lemma_generate_parse_generate(c: CurveView)
    requires
        morph_type_ok(c.morph_type),
        c.points.len() > 0,
    ensures
        spec_parse(spec_generate(c)) matches Ok(d) && spec_generate(d) == spec_generate(c),
{
    lemma_generate_parse(c);
    lemma_points_text_normalized(c.points);
}

proof fn lemma_point_line_normalized(p: ControlPoint)
    ensures
        spec_point_line(normalize_point(p)) == spec_point_line(p),
{
    lemma_fmt_bits(p.position.0);
    lemma_fmt_bits(p.position.1);
    match p.incoming {
        Some(h) => {
            lemma_fmt_bits(h.0);
            lemma_fmt_bits(h.1);
        },
        None => {},
    }
    match p.outgoing {
        Some(h) => {
            lemma_fmt_bits(h.0);
            lemma_fmt_bits(h.1);
        },
        None => {},
    }
}

proof fn lemma_points_text_normalized(pts: Seq<ControlPoint>)
    ensures
        spec_points_text(pts.map_values(|p: ControlPoint| normalize_point(p))) == spec_points_text(
            pts,
        ),
    decreases pts.len(),
{
    let mapped = pts.map_values(|p: ControlPoint| normalize_point(p));
    if pts.len() > 0 {
        lemma_point_line_normalized(pts[0]);
        assert(mapped.drop_first() =~= pts.drop_first().map_values(
            |p: ControlPoint| normalize_point(p),
        ));
        lemma_points_text_normalized(pts.drop_first());
    }
}

// ── what the parser reads is writable ───────────────────────────────────────

proof fn lemma_lacks_trim_start(s: Seq<char>, c: char)
    requires
        lacks(s, c),
    ensures
        lacks(trim_start(s), c),
    decreases s.len(),
{
    if s.len() > 0 && is_whitespace(s[0]) {
        assert forall|i: int| 0 <= i < s.drop_first().len() implies #[trigger] s.drop_first()[i]
            != c by {
            assert(s.drop_first()[i] == s[i + 1]);
        }
        lemma_lacks_trim_start(s.drop_first(), c);
    }
}

proof fn lemma_lacks_trim_end(s: Seq<char>, c: char)
    requires
        lacks(s, c),
    ensures
        lacks(trim_end(s), c),
    decreases s.len(),
{
    if s.len() > 0 && is_whitespace(s.last()) {
        assert forall|i: int| 0 <= i < s.drop_last().len() implies #[trigger] s.drop_last()[i]
            != c by {
            assert(s.drop_last()[i] == s[i]);
        }
        lemma_lacks_trim_end(s.drop_last(), c);
    }
}

proof fn lemma_lacks_subrange(s: Seq<char>, c: char, a: int, b: int)
    requires
        lacks(s, c),
        0 <= a <= b <= s.len(),
    ensures
        lacks(s.subrange(a, b), c),
{
    assert forall|i: int| 0 <= i < b - a implies #[trigger] s.subrange(a, b)[i] != c by {
        assert(s.subrange(a, b)[i] == s[a + i]);
    }
}

/// No match of a one-character needle from `k` on means the character does
/// not occur there.
proof fn lemma_find_none_lacks(hay: Seq<char>, c: char, k: int)
    requires
        0 <= k,
        find_from(hay, single(c), k) is None,
    ensures
        forall|i: int| k <= i < hay.len() ==> hay[i] != c,
    decreases hay.len() + 1 - k,
{
    if k < hay.len() {
        assert(hay.subrange(k, k + 1) != single(c));
        assert(hay[k] != c) by {
            if hay[k] == c {
                assert(hay.subrange(k, k + 1) =~= single(c));
            }
        }
        lemma_find_none_lacks(hay, c, k + 1);
    }
}

/// Before the first match of a one-character needle the character does not
/// occur.
proof fn lemma_find_some_lacks(hay: Seq<char>, c: char, j: int)
    requires
        find(hay, single(c)) == Some(j),
    ensures
        0 <= j < hay.len(),
        lacks(hay.take(j), c),
{
    lemma_find_bounds(hay, single(c), 0);
    assert forall|i: int| 0 <= i < j implies #[trigger] hay.take(j)[i] != c by {
        assert(hay.subrange(i, i + 1) != single(c));
        if hay[i] == c {
            assert(hay.subrange(i, i + 1) =~= single(c));
        }
    }
}

/// The morph type a header line sets holds neither a quote nor a line break.
proof fn lemma_header_morph_ok(rest: Seq<char>, morph: Seq<char>)
    requires
        lacks(rest, '\n'),
        morph_type_ok(morph),
    ensures
        morph_type_ok(spec_header_morph(rest, morph)),
{
    match find(rest, single('\'')) {
        Some(s) => {
            lemma_find_bounds(rest, single('\''), 0);
            let after = rest.skip(s + 1);
            match find(after, single('\'')) {
                Some(e) => {
                    lemma_find_some_lacks(after, '\'', e);
                    let m = rest.subrange(s + 1, s + 1 + e);
                    assert(m =~= after.take(e));
                    lemma_lacks_subrange(rest, '\n', s + 1, s + 1 + e);
                    assert forall|i: int| 0 <= i < m.len() implies #[trigger] m[i] != '\''
                        && m[i] != '\n' by {
                        assert(m[i] == after.take(e)[i]);
                        assert(m[i] == rest.subrange(s + 1, s + 1 + e)[i]);
                    }
                },
                None => {},
            }
        },
        None => {},
    }
}

/// A line without a line break keeps the morph type writable.
proof fn lemma_parse_line_morph_ok(st: CurveView, raw: Seq<char>)
    requires
        lacks(raw, '\n'),
        morph_type_ok(st.morph_type),
    ensures
        spec_parse_line(st, raw) matches Ok(next) ==> morph_type_ok(next.morph_type),
{
    let line = trim(raw);
    lemma_lacks_trim_start(raw, '\n');
    lemma_lacks_trim_end(trim_start(raw), '\n');
    if !(starts_with(line, "//"@) || line.len() == 0) && starts_with(line, "Curve ID ="@) {
        reveal_strlit("Curve ID =");
        lemma_lacks_subrange(line, '\n', 10, line.len() as int);
        assert(line.skip(10) =~= line.subrange(10, line.len() as int));
        lemma_header_morph_ok(line.skip(10), st.morph_type);
    }
}

/// Reading lines keeps the morph type writable.
proof fn lemma_parse_text_morph_ok(s: Seq<char>, st: CurveView)
    requires
        morph_type_ok(st.morph_type),
    ensures
        spec_parse_text(s, st) matches Ok(c) ==> morph_type_ok(c.morph_type),
    decreases s.len(),
{
    if s.len() > 0 {
        match find(s, single('\n')) {
            None => {
                lemma_find_none_lacks(s, '\n', 0);
                lemma_parse_line_morph_ok(st, s);
            },
            Some(i) => {
                lemma_find_some_lacks(s, '\n', i);
                let l = s.take(i);
                let line = strip_cr(l);
                if l.len() > 0 && l.last() == '\r' {
                    lemma_lacks_subrange(l, '\n', 0, l.len() - 1);
                    assert(l.drop_last() =~= l.subrange(0, l.len() - 1));
                }
                lemma_parse_line_morph_ok(st, line);
                match spec_parse_line(st, line) {
                    Ok(next) => {
                        lemma_find_bounds(s, single('\n'), 0);
                        lemma_parse_text_morph_ok(s.skip(i + 1), next);
                    },
                    Err(_) => {},
                }
            },
        }
    }
}

/// Paste, copy, paste: a curve read from any clipboard text is written by
/// `generate` as text that `parse` reads back as the same curve (a negative
/// zero coming back as zero).
pub proof fn lemma_parse_generate_parse(s: Seq<char>)
    ensures
        spec_parse(s) matches Ok(c) ==> spec_parse(spec_generate(c)) == Ok::<
            CurveView,
            Seq<char>,
        >(normalized(c)),
{
    reveal_strlit("Peaks And Valleys");
    let st0 = initial_view();
    assert(morph_type_ok(st0.morph_type));
    lemma_parse_text_morph_ok(s, st0);
    match spec_parse(s) {
        Ok(c) => {
            lemma_generate_parse(c);
        },
        Err(_) => {},
    }
}

} // verus!

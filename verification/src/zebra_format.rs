//! The Zebra3 clipboard curve format:
//!
//! ```text
//! // u-he Bezier Curve
//! // Version 1.0
//! Curve ID = 1 MorphType = 'Peaks And Valleys'
//! PX XY = '0/3F006807' OV = '3EB65325/3E9BF21C'
//! PX XY = '3F800000/3F006807' IV = '3F2AAAAB/3F2AAAAB'
//! ```
//!
//! Each value is an IEEE 754 single-precision number written as the
//! upper-case hex of its bits; `0` stands for zero.
use vstd::prelude::*;

use crate::curve::{BezierCurve, ControlPoint, CurveView};
use crate::text::{
    chars_of, decimal, find, find_exec, hex_digits, lemma_find_bounds, lemma_find_first_char,
    lemma_find_none, parse_u32_radix, parse_u32_radix_exec, starts_with, starts_with_exec,
    string_of, subvec, trim, trim_exec, push_char, push_str, push_decimal, push_hex_digits,
};

verus! {

broadcast use vstd::string::group_string_axioms;

// ── the format, as mathematical functions ───────────────────────────────────

/// A one-character sequence.
pub open spec fn single(c: char) -> Seq<char> {
    seq![c]
}

/// The morph type a curve has where the text names none.
pub open spec fn default_morph_type() -> Seq<char> {
    "Peaks And Valleys"@
}

/// What the parser holds before the first line.
pub open spec fn initial_view() -> CurveView {
    CurveView { points: seq![], curve_id: 1, morph_type: default_morph_type() }
}

/// `str::strip_suffix('\r')` as `str::lines` applies it to a line.
pub open spec fn strip_cr(line: Seq<char>) -> Seq<char> {
    if line.len() > 0 && line.last() == '\r' {
        line.drop_last()
    } else {
        line
    }
}

/// One coordinate: the literal `0`, or the hex digits of its bits.
pub open spec fn spec_parse_hex(s: Seq<char>) -> Option<u32> {
    let t = trim(s);
    if t == single('0') {
        Some(0)
    } else {
        parse_u32_radix(t, 16)
    }
}

/// The text that introduces the pair for `key` (`XY`, `IV` or `OV`).
pub open spec fn pair_needle(key: Seq<char>) -> Seq<char> {
    key + seq![' ', '=', ' ', '\'']
}

/// The pair `'A/B'` that follows `key = ` in `line`, if it is there.
pub open spec fn spec_extract_pair(line: Seq<char>, key: Seq<char>) -> Option<(u32, u32)> {
    let needle = pair_needle(key);
    match find(line, needle) {
        None => None,
        Some(i) => {
            let start = i + needle.len();
            match find(line.skip(start), single('\'')) {
                None => None,
                Some(e) => {
                    let field = line.subrange(start, start + e);
                    match find(field, single('/')) {
                        None => None,
                        Some(k) => match (
                            spec_parse_hex(field.take(k)),
                            spec_parse_hex(field.skip(k + 1)),
                        ) {
                            (Some(a), Some(b)) => Some((a, b)),
                            _ => None,
                        },
                    }
                },
            }
        },
    }
}

/// A `PX XY` line: its position, and its handles where they are there.
pub open spec fn spec_parse_point(line: Seq<char>) -> Option<ControlPoint> {
    match spec_extract_pair(line, "XY"@) {
        None => None,
        Some(position) => Some(
            ControlPoint {
                position,
                incoming: spec_extract_pair(line, "IV"@),
                outgoing: spec_extract_pair(line, "OV"@),
            },
        ),
    }
}

/// The curve id on a `Curve ID =` line (given the text after the prefix).
pub open spec fn spec_header_id(rest: Seq<char>, id: u32) -> u32 {
    match find(rest, "MorphType"@) {
        Some(e) => match parse_u32_radix(trim(rest.take(e)), 10) {
            Some(v) => v,
            None => 1,
        },
        None => id,
    }
}

/// The morph type on a `Curve ID =` line (given the text after the prefix).
pub open spec fn spec_header_morph(rest: Seq<char>, morph: Seq<char>) -> Seq<char> {
    match find(rest, single('\'')) {
        Some(s) => match find(rest.skip(s + 1), single('\'')) {
            Some(e) => rest.subrange(s + 1, s + 1 + e),
            None => morph,
        },
        None => morph,
    }
}

/// What one line does to the curve read so far, or the error it raises.
pub open spec fn spec_parse_line(st: CurveView, raw: Seq<char>) -> Result<CurveView, Seq<char>> {
    let line = trim(raw);
    if starts_with(line, "//"@) || line.len() == 0 {
        Ok(st)
    } else if starts_with(line, "Curve ID ="@) {
        let rest = line.skip(10);
        Ok(
            CurveView {
                points: st.points,
                curve_id: spec_header_id(rest, st.curve_id),
                morph_type: spec_header_morph(rest, st.morph_type),
            },
        )
    } else if starts_with(line, "PX XY"@) {
        match spec_parse_point(line) {
            Some(p) => Ok(
                CurveView { points: st.points.push(p), curve_id: st.curve_id, morph_type: st.morph_type },
            ),
            None => Err("Missing XY in: "@ + line),
        }
    } else {
        Ok(st)
    }
}

/// The lines of `s` (as `str::lines` cuts them), read in order from `st`.
pub open spec fn spec_parse_text(s: Seq<char>, st: CurveView) -> Result<CurveView, Seq<char>>
    decreases s.len(),
{
    if s.len() == 0 {
        Ok(st)
    } else {
        match find(s, single('\n')) {
            None => spec_parse_line(st, s),
            Some(i) => match spec_parse_line(st, strip_cr(s.take(i))) {
                Err(e) => Err(e),
                Ok(next) => {
                    proof {
                        lemma_find_bounds(s, single('\n'), 0);
                    }
                    spec_parse_text(s.skip(i + 1), next)
                },
            },
        }
    }
}

/// What `parse` gives for the text `s`.
pub open spec fn spec_parse(s: Seq<char>) -> Result<CurveView, Seq<char>> {
    match spec_parse_text(s, initial_view()) {
        Err(e) => Err(e),
        Ok(c) => if c.points.len() == 0 {
            Err("No control points found"@)
        } else {
            Ok(c)
        },
    }
}

/// One coordinate as the format writes it: `0` for either zero, otherwise
/// the eight upper-case hex digits of its bits.
pub open spec fn spec_fmt_bits(v: u32) -> Seq<char> {
    if v == 0 || v == 0x8000_0000 {
        single('0')
    } else {
        hex_digits(v as nat, 8)
    }
}

/// A pair as the format writes it: `A/B`.
pub open spec fn spec_fmt_pair(p: (u32, u32)) -> Seq<char> {
    spec_fmt_bits(p.0) + single('/') + spec_fmt_bits(p.1)
}

/// ` IV = 'A/B'` for a handle that is there.
pub open spec fn spec_handle_text(tag: Seq<char>, h: Option<(u32, u32)>) -> Seq<char> {
    match h {
        Some(p) => tag + spec_fmt_pair(p) + single('\''),
        None => seq![],
    }
}

/// The line of one control point (without its line break).
pub open spec fn spec_point_line(p: ControlPoint) -> Seq<char> {
    "PX XY = '"@ + spec_fmt_pair(p.position) + single('\'') + spec_handle_text(
        " IV = '"@,
        p.incoming,
    ) + spec_handle_text(" OV = '"@, p.outgoing)
}

/// The lines of the control points, each ended by a line break.
pub open spec fn spec_points_text(pts: Seq<ControlPoint>) -> Seq<char>
    decreases pts.len(),
{
    if pts.len() == 0 {
        seq![]
    } else {
        spec_point_line(pts[0]) + single('\n') + spec_points_text(pts.drop_first())
    }
}

/// The `Curve ID = … MorphType = '…'` line (without its line break).
pub open spec fn spec_header_line(c: CurveView) -> Seq<char> {
    "Curve ID = "@ + decimal(c.curve_id as nat) + " MorphType = '"@ + c.morph_type + single('\'')
}

/// The text that `generate` writes for a curve.
pub open spec fn spec_generate(c: CurveView) -> Seq<char> {
    "// u-he Bezier Curve"@ + single('\n') + "// Version 1.0"@ + single('\n') + spec_header_line(c)
        + single('\n') + spec_points_text(c.points)
}

// ── parsing ─────────────────────────────────────────────────────────────────

/// The curve read so far.
struct Parsed {
    curve_id: u32,
    morph_type: Vec<char>,
    points: Vec<ControlPoint>,
}

impl Parsed {
    spec fn view(&self) -> CurveView {
        CurveView { points: self.points@, curve_id: self.curve_id, morph_type: self.morph_type@ }
    }
}

/// `[c]` as a vector.
fn single_exec(c: char) -> (res: Vec<char>)
    ensures
        res@ == single(c),
{
    let mut v: Vec<char> = Vec::new();
    v.push(c);
    assert(v@ =~= single(c));
    v
}

/// Decodes one coordinate; the literal "0" is accepted as zero.
fn parse_hex_f32(s: &Vec<char>) -> (res: Option<u32>)
    ensures
        res == spec_parse_hex(s@),
{
    let t = trim_exec(s);
    if t.len() == 1 && t[0] == '0' {
        assert(t@ =~= single('0'));
        Some(0)
    } else {
        assert(t@ != single('0')) by {
            if t@ == single('0') {
                assert(t@[0] == '0');
            }
        }
        parse_u32_radix_exec(&t, 16)
    }
}

/// The pair that follows `key = '` in `line`.
fn extract_pair(line: &Vec<char>, key: &str) -> (res: Option<(u32, u32)>)
    ensures
        res == spec_extract_pair(line@, key@),
{
    let mut needle = chars_of(key);
    needle.push(' ');
    needle.push('=');
    needle.push(' ');
    needle.push('\'');
    assert(needle@ =~= pair_needle(key@));
    let i = match find_exec(line, &needle) {
        None => {
            return None;
        },
        Some(i) => i,
    };
    proof {
        lemma_find_bounds(line@, needle@, 0);
    }
    assert(i + needle@.len() <= line@.len());
    assert(line@.len() == line.len());
    let start = i + needle.len();
    let tail = subvec(line, start, line.len());
    assert(tail@ =~= line@.skip(start as int));
    let e = match find_exec(&tail, &single_exec('\'')) {
        None => {
            return None;
        },
        Some(e) => e,
    };
    proof {
        lemma_find_bounds(tail@, single('\''), 0);
    }
    let field = subvec(line, start, start + e);
    let k = match find_exec(&field, &single_exec('/')) {
        None => {
            return None;
        },
        Some(k) => k,
    };
    proof {
        lemma_find_bounds(field@, single('/'), 0);
    }
    let before = subvec(&field, 0, k);
    let after = subvec(&field, k + 1, field.len());
    assert(before@ =~= field@.take(k as int));
    assert(after@ =~= field@.skip(k + 1));
    match (parse_hex_f32(&before), parse_hex_f32(&after)) {
        (Some(a), Some(b)) => Some((a, b)),
        _ => None,
    }
}

/// Reads a `PX XY` line.
fn parse_point(line: &Vec<char>) -> (res: Option<ControlPoint>)
    ensures
        res == spec_parse_point(line@),
{
    let position = match extract_pair(line, "XY") {
        None => {
            return None;
        },
        Some(p) => p,
    };
    let incoming = extract_pair(line, "IV");
    let outgoing = extract_pair(line, "OV");
    Some(ControlPoint { position, incoming, outgoing })
}

/// Reads a `Curve ID =` line, given the text after the prefix.
fn parse_header(st: &mut Parsed, rest: &Vec<char>)
    ensures
        final(st)@ == (CurveView {
            points: old(st)@.points,
            curve_id: spec_header_id(rest@, old(st)@.curve_id),
            morph_type: spec_header_morph(rest@, old(st)@.morph_type),
        }),
{
    let morph_key = chars_of("MorphType");
    match find_exec(rest, &morph_key) {
        Some(id_end) => {
            proof {
                lemma_find_bounds(rest@, morph_key@, 0);
            }
            let digits = trim_exec(&subvec(rest, 0, id_end));
            assert(rest@.take(id_end as int) =~= rest@.subrange(0, id_end as int));
            st.curve_id = match parse_u32_radix_exec(&digits, 10) {
                Some(v) => v,
                None => 1,
            };
        },
        None => {},
    }
    let quote = single_exec('\'');
    match find_exec(rest, &quote) {
        Some(s) => {
            proof {
                lemma_find_bounds(rest@, quote@, 0);
            }
            assert(s + quote@.len() <= rest@.len());
            assert(rest@.len() == rest.len());
            let after = subvec(rest, s + 1, rest.len());
            assert(after@ =~= rest@.skip(s + 1));
            match find_exec(&after, &quote) {
                Some(e) => {
                    proof {
                        lemma_find_bounds(after@, quote@, 0);
                    }
                    st.morph_type = subvec(rest, s + 1, s + 1 + e);
                },
                None => {},
            }
        },
        None => {},
    }
}

/// Applies one line to the curve read so far; the error names the line.
fn parse_line(st: &mut Parsed, raw: &Vec<char>) -> (res: Result<(), Vec<char>>)
    ensures
        match res {
            Ok(()) => spec_parse_line(old(st)@, raw@) == Ok::<CurveView, Seq<char>>(final(st)@),
            Err(e) => spec_parse_line(old(st)@, raw@) == Err::<CurveView, Seq<char>>(e@),
        },
{
    let line = trim_exec(raw);
    if starts_with_exec(&line, &chars_of("//")) || line.len() == 0 {
        return Ok(());
    }
    if starts_with_exec(&line, &chars_of("Curve ID =")) {
        proof {
            reveal_strlit("Curve ID =");
        }
        let rest = subvec(&line, 10, line.len());
        assert(rest@ =~= line@.skip(10));
        parse_header(st, &rest);
        return Ok(());
    }
    if starts_with_exec(&line, &chars_of("PX XY")) {
        match parse_point(&line) {
            Some(p) => {
                st.points.push(p);
                return Ok(());
            },
            None => {
                let mut msg = chars_of("Missing XY in: ");
                let mut i: usize = 0;
                let ghost head = msg@;
                while i < line.len()
                    invariant
                        i <= line.len(),
                        msg@ == head + line@.take(i as int),
                    decreases line.len() - i,
                {
                    msg.push(line[i]);
                    i = i + 1;
                    assert(msg@ =~= head + line@.take(i as int));
                }
                assert(line@.take(i as int) =~= line@);
                return Err(msg);
            },
        }
    }
    Ok(())
}

/// The first line break at or after `pos`.
fn find_newline(s: &Vec<char>, pos: usize) -> (res: Option<usize>)
    requires
        pos <= s.len(),
    ensures
        match res {
            Some(j) => pos <= j < s.len() && find(s@.skip(pos as int), single('\n')) == Some(
                j - pos,
            ),
            None => find(s@.skip(pos as int), single('\n')) is None,
        },
{
    let ghost rest = s@.skip(pos as int);
    let mut j = pos;
    while j < s.len()
        invariant
            pos <= j <= s.len(),
            rest == s@.skip(pos as int),
            forall|i: int| 0 <= i < j - pos ==> rest[i] != '\n',
        decreases s.len() - j,
    {
        if s[j] == '\n' {
            proof {
                assert(rest.subrange(j - pos, j - pos + 1) =~= single('\n'));
                lemma_find_first_char(rest, single('\n'), 0, j - pos);
            }
            return Some(j);
        }
        j = j + 1;
    }
    proof {
        lemma_find_none(rest, single('\n'), 0);
    }
    None
}

/// Parse a Zebra3 clipboard curve string into a `BezierCurve`.
pub fn parse(input: &str) -> (res: Result<BezierCurve, String>)
    ensures
        match res {
            Ok(c) => spec_parse(input@) == Ok::<CurveView, Seq<char>>(c@),
            Err(e) => spec_parse(input@) == Err::<CurveView, Seq<char>>(e@),
        },
{
    let s = chars_of(input);
    let mut st = Parsed {
        curve_id: 1,
        morph_type: chars_of("Peaks And Valleys"),
        points: Vec::new(),
    };
    assert(st@ =~= initial_view());
    let mut pos: usize = 0;
    assert(s@.skip(0) =~= s@);
    while pos < s.len()
        invariant
            pos <= s.len(),
            s@ == input@,
            spec_parse_text(s@, initial_view()) == spec_parse_text(s@.skip(pos as int), st@),
        decreases s.len() - pos,
    {
        let ghost rest = s@.skip(pos as int);
        let ghost before = st@;
        match find_newline(&s, pos) {
            None => {
                let line = subvec(&s, pos, s.len());
                assert(line@ =~= rest);
                match parse_line(&mut st, &line) {
                    Err(e) => {
                        return Err(string_of(&e));
                    },
                    Ok(()) => {},
                }
                pos = s.len();
                assert(s@.skip(pos as int) =~= seq![]);
            },
            Some(j) => {
                let mut line = subvec(&s, pos, j);
                assert(line@ =~= rest.take(j - pos));
                if line.len() > 0 && line[line.len() - 1] == '\r' {
                    line.pop();
                }
                assert(line@ =~= strip_cr(rest.take(j - pos)));
                match parse_line(&mut st, &line) {
                    Err(e) => {
                        return Err(string_of(&e));
                    },
                    Ok(()) => {},
                }
                let ghost p0 = pos;
                pos = j + 1;
                assert(rest.skip(j - p0 + 1) =~= s@.skip(pos as int));
            },
        }
    }
    assert(s@.skip(pos as int) =~= seq![]);
    if st.points.len() == 0 {
        return Err(string_of(&chars_of("No control points found")));
    }
    let morph_type = string_of(&st.morph_type);
    Ok(BezierCurve { points: st.points, curve_id: st.curve_id, morph_type })
}

// ── generating ──────────────────────────────────────────────────────────────

/// Appends one coordinate as the format writes it.
fn push_fmt_f32(out: &mut String, v: u32)
    ensures
        final(out)@ == old(out)@ + spec_fmt_bits(v),
{
    if v == 0 || v == 0x8000_0000 {
        push_char(out, '0');
        assert(old(out)@.push('0') =~= old(out)@ + single('0'));
    } else {
        push_hex_digits(out, v, 8);
    }
}

/// Appends a pair as `A/B`.
fn push_fmt_pair(out: &mut String, p: (u32, u32))
    ensures
        final(out)@ == old(out)@ + spec_fmt_pair(p),
{
    push_fmt_f32(out, p.0);
    push_char(out, '/');
    push_fmt_f32(out, p.1);
    assert(old(out)@ + spec_fmt_bits(p.0) + seq!['/'] + spec_fmt_bits(p.1) =~= old(out)@
        + spec_fmt_pair(p));
}

/// Appends ` IV = 'A/B'` (or ` OV = …`) for a handle that is there.
fn push_handle(out: &mut String, tag: &str, h: Option<(u32, u32)>)
    ensures
        final(out)@ == old(out)@ + spec_handle_text(tag@, h),
{
    match h {
        Some(p) => {
            push_str(out, tag);
            push_fmt_pair(out, p);
            push_char(out, '\'');
            assert(old(out)@ + tag@ + spec_fmt_pair(p) + seq!['\''] =~= old(out)@
                + spec_handle_text(tag@, h));
        },
        None => {
            assert(old(out)@ + spec_handle_text(tag@, h) =~= old(out)@);
        },
    }
}

/// Appends the line of one control point.
fn push_point_line(out: &mut String, pt: &ControlPoint)
    ensures
        final(out)@ == old(out)@ + spec_point_line(*pt),
{
    push_str(out, "PX XY = '");
    push_fmt_pair(out, pt.position);
    push_char(out, '\'');
    push_handle(out, " IV = '", pt.incoming);
    push_handle(out, " OV = '", pt.outgoing);
    assert(old(out)@ + "PX XY = '"@ + spec_fmt_pair(pt.position) + seq!['\''] + spec_handle_text(
        " IV = '"@,
        pt.incoming,
    ) + spec_handle_text(" OV = '"@, pt.outgoing) =~= old(out)@ + spec_point_line(*pt));
}

/// The lines of the first `i + 1` points are those of the first `i` and one more.
proof fn lemma_points_text_snoc(pts: Seq<ControlPoint>, i: int)
    requires
        0 <= i < pts.len(),
    ensures
        spec_points_text(pts.take(i + 1)) == spec_points_text(pts.take(i)) + spec_point_line(
            pts[i],
        ) + single('\n'),
    decreases i,
{
    if i == 0 {
        let one = pts.take(1);
        let empty: Seq<ControlPoint> = seq![];
        assert(one.drop_first() =~= empty);
        assert(pts.take(0) =~= empty);
        assert(one[0] == pts[0]);
        assert(spec_points_text(empty) == Seq::<char>::empty());
        assert(spec_points_text(one) == spec_point_line(pts[0]) + single('\n') + spec_points_text(
            empty,
        ));
        assert(spec_points_text(one) =~= spec_point_line(pts[0]) + single('\n'));
    } else {
        let rest = pts.drop_first();
        lemma_points_text_snoc(rest, i - 1);
        assert(pts.take(i + 1).drop_first() =~= rest.take(i));
        assert(pts.take(i).drop_first() =~= rest.take(i - 1));
        assert(rest[i - 1] == pts[i]);
        assert(spec_points_text(pts.take(i + 1)) =~= spec_points_text(pts.take(i))
            + spec_point_line(pts[i]) + single('\n'));
    }
}

/// Generate a Zebra3 clipboard format string from a `BezierCurve`.
pub fn generate(curve: &BezierCurve) -> (res: String)
    ensures
        res@ == spec_generate(curve@),
{
    let mut out = String::new();
    push_str(&mut out, "// u-he Bezier Curve");
    push_char(&mut out, '\n');
    push_str(&mut out, "// Version 1.0");
    push_char(&mut out, '\n');
    push_str(&mut out, "Curve ID = ");
    push_decimal(&mut out, curve.curve_id as u64);
    push_str(&mut out, " MorphType = '");
    push_str(&mut out, curve.morph_type.as_str());
    push_char(&mut out, '\'');
    push_char(&mut out, '\n');
    let ghost head = out@;
    assert(head =~= "// u-he Bezier Curve"@ + single('\n') + "// Version 1.0"@ + single('\n')
        + spec_header_line(curve@) + single('\n'));
    let mut i: usize = 0;
    assert(curve.points@.take(0) =~= seq![]);
    while i < curve.points.len()
        invariant
            i <= curve.points.len(),
            out@ == head + spec_points_text(curve.points@.take(i as int)),
        decreases curve.points.len() - i,
    {
        proof {
            lemma_points_text_snoc(curve.points@, i as int);
        }
        push_point_line(&mut out, &curve.points[i]);
        push_char(&mut out, '\n');
        i = i + 1;
        assert(out@ =~= head + spec_points_text(curve.points@.take(i as int)));
    }
    assert(curve.points@.take(i as int) =~= curve.points@);
    assert(out@ =~= spec_generate(curve@));
    out
}

} // verus!

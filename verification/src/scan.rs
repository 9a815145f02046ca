//! The two scanner shapes for the tools' semi-structured output.
//!
//! A key/value scanner walks a pseudo-JSON document line by line and pulls
//! numeric fields out of the first object matched by a marker line; a
//! positional scanner takes a compact `WxH+X+Y` token apart.  Both are total:
//! malformed input yields no match, never an error.

use vstd::prelude::*;

use crate::text::{
    after_colon, after_colon_str, all_digits, contains_spec, contains_str, idx_of, is_digit,
    lemma_idx_of, lemma_idx_of_absent, lemma_idx_of_beyond, lines_spec, parse_i32_spec,
    parse_i32_str, parse_u32_spec, parse_u32_str, split_lines, split_once_spec, split_once_str,
    starts_with_spec, starts_with_str, str_eq, strip_back, strip_back_str, strip_front,
    strip_front_str, trim_of, trim_spec,
};

verus! {

/// The value part of a `"key": value,` line: the text after the first colon,
/// trimmed and with trailing commas removed, read as a decimal number.
pub open spec fn field_u32_spec(line: Seq<char>) -> Option<u32> {
    match after_colon(line) {
        Some(seg) => parse_u32_spec(strip_back(trim_spec(seg), ',')),
        None => None,
    }
}

/// Reads the numeric value of a `"key": value,` line.
pub fn field_u32(line: &str) -> (r: Option<u32>)
    ensures
        r == field_u32_spec(line@),
{
    match after_colon_str(line) {
        Some(seg) => parse_u32_str(strip_back_str(trim_of(seg), ',')),
        None => None,
    }
}

/// The value part of a `"key": "value",` line: the text after the first
/// colon, trimmed, with trailing commas and surrounding quotes removed.
pub open spec fn field_name_spec(line: Seq<char>) -> Option<Seq<char>> {
    match after_colon(line) {
        Some(seg) => Some(
            strip_front(strip_back(strip_back(trim_spec(seg), ','), '"'), '"'),
        ),
        None => None,
    }
}

/// Reads the string value of a `"key": "value",` line.
pub fn field_name<'a>(line: &'a str) -> (r: Option<&'a str>)
    ensures
        match r {
            Some(t) => field_name_spec(line@) == Some(t@),
            None => field_name_spec(line@) is None,
        },
{
    match after_colon_str(line) {
        Some(seg) => Some(
            strip_front_str(strip_back_str(strip_back_str(trim_of(seg), ','), '"'), '"'),
        ),
        None => None,
    }
}

/// One display rectangle: pixel dimensions and the position of its upper-left
/// corner in the global coordinate space.
#[derive(Clone, Copy, Debug, PartialEq, Eq, Structural)]
pub struct Geometry {
    pub width: u32,
    pub height: u32,
    pub x: i32,
    pub y: i32,
}

/// What a `WxH` mode token parses to.
pub open spec fn parse_mode_spec(tok: Seq<char>) -> Option<(u32, u32)> {
    match split_once_spec(tok, 'x') {
        Some(p) => match (parse_u32_spec(p.0), parse_u32_spec(p.1)) {
            (Some(w), Some(h)) => Some((w, h)),
            _ => None,
        },
        None => None,
    }
}

/// Parses a `WxH` mode token, such as a sysfs mode-list line.
pub fn parse_mode(tok: &str) -> (r: Option<(u32, u32)>)
    ensures
        r == parse_mode_spec(tok@),
{
    match split_once_str(tok, 'x') {
        Some(p) => match (parse_u32_str(p.0), parse_u32_str(p.1)) {
            (Some(w), Some(h)) => Some((w, h)),
            _ => None,
        },
        None => None,
    }
}

/// What a positional `WxH+X+Y` token parses to: the text before the first
/// `+` split at its first `x` gives the dimensions, the text after it split
/// at its next `+` gives the offsets.  Any missing separator or non-numeric
/// field yields no match.
pub open spec fn parse_geometry_spec(tok: Seq<char>) -> Option<Geometry> {
    match split_once_spec(tok, '+') {
        Some(rp) => match (split_once_spec(rp.0, 'x'), split_once_spec(rp.1, '+')) {
            (Some(wh), Some(xy)) => match (
                parse_u32_spec(wh.0),
                parse_u32_spec(wh.1),
                parse_i32_spec(xy.0),
                parse_i32_spec(xy.1),
            ) {
                (Some(w), Some(h), Some(x), Some(y)) => Some(
                    Geometry { width: w, height: h, x: x, y: y },
                ),
                _ => None,
            },
            _ => None,
        },
        None => None,
    }
}

/// Parses a positional `WxH+X+Y` token.
pub fn parse_geometry(tok: &str) -> (r: Option<Geometry>)
    ensures
        r == parse_geometry_spec(tok@),
{
    match split_once_str(tok, '+') {
        Some(rp) => match (split_once_str(rp.0, 'x'), split_once_str(rp.1, '+')) {
            (Some(wh), Some(xy)) => match (
                parse_u32_str(wh.0),
                parse_u32_str(wh.1),
                parse_i32_str(xy.0),
                parse_i32_str(xy.1),
            ) {
                (Some(w), Some(h), Some(x), Some(y)) => Some(
                    Geometry { width: w, height: h, x: x, y: y },
                ),
                _ => None,
            },
            _ => None,
        },
        None => None,
    }
}

/// For every well-formed positional token — numeric dimension fields joined
/// by `x`, then the two numeric offset fields each behind a `+` — the
/// scanner recovers exactly the four embedded numbers.
pub proof fn lemma_geometry_token_roundtrip(
    dw: Seq<char>,
    dh: Seq<char>,
    dx: Seq<char>,
    dy: Seq<char>,
)
    requires
        parse_u32_spec(dw) is Some,
        parse_u32_spec(dh) is Some,
        parse_i32_spec(dx) is Some,
        parse_i32_spec(dy) is Some,
    ensures
        parse_geometry_spec(dw + seq!['x'] + dh + seq!['+'] + dx + seq!['+'] + dy) == Some(
            Geometry {
                width: parse_u32_spec(dw)->Some_0,
                height: parse_u32_spec(dh)->Some_0,
                x: parse_i32_spec(dx)->Some_0,
                y: parse_i32_spec(dy)->Some_0,
            },
        ),
{
    let res = dw + seq!['x'] + dh;
    let pos = dx + seq!['+'] + dy;
    let tok = res + seq!['+'] + pos;
    assert(tok =~= dw + seq!['x'] + dh + seq!['+'] + dx + seq!['+'] + dy);
    assert forall|i: int| 0 <= i < res.len() implies res[i] != '+' by {
        if i < dw.len() {
            assert(res[i] == dw[i]);
            assert(is_digit(dw[i]));
        } else if i == dw.len() {
            assert(res[i] == 'x');
        } else {
            assert(res[i] == dh[i - dw.len() - 1]);
            assert(is_digit(dh[i - dw.len() - 1]));
        }
    }
    lemma_idx_of_beyond(res, pos, '+');
    assert(idx_of(tok, '+') == Some(res.len() as int));
    assert(tok.take(res.len() as int) =~= res);
    assert(tok.skip(res.len() as int + 1) =~= pos);
    assert forall|i: int| 0 <= i < dw.len() implies dw[i] != 'x' by {
        assert(is_digit(dw[i]));
    }
    lemma_idx_of_beyond(dw, dh, 'x');
    assert(res.take(dw.len() as int) =~= dw);
    assert(res.skip(dw.len() as int + 1) =~= dh);
    assert forall|i: int| 0 <= i < dx.len() implies dx[i] != '+' by {
        if dx.len() > 0 && dx[0] == '-' {
            if i > 0 {
                assert(is_digit(dx.drop_first()[i - 1]));
                assert(dx[i] == dx.drop_first()[i - 1]);
            }
        } else {
            assert(is_digit(dx[i]));
        }
    }
    lemma_idx_of_beyond(dx, dy, '+');
    assert(pos.take(dx.len() as int) =~= dx);
    assert(pos.skip(dx.len() as int + 1) =~= dy);
}

/// A positional token without a `+`, or without an `x` anywhere before its
/// first `+`, never matches.
pub proof fn lemma_geometry_token_malformed(tok: Seq<char>)
    requires
        idx_of(tok, '+') is None || idx_of(tok, 'x') is None,
    ensures
        parse_geometry_spec(tok) is None,
{
    if idx_of(tok, '+') is None {
    } else {
        lemma_idx_of(tok, 'x');
        lemma_idx_of(tok, '+');
        let i = idx_of(tok, '+')->Some_0;
        let res = tok.take(i);
        assert forall|j: int| 0 <= j < res.len() implies res[j] != 'x' by {
            assert(res[j] == tok[j]);
        }
        lemma_idx_of_absent(res, 'x');
    }
}

/// The key/value scan, one line at a time.  A line containing `marker` opens
/// the object of interest; inside it, `"width":` and `"height":` lines fill
/// the accumulator; a lone `}` closes the object, yielding the dimensions
/// when both were seen and otherwise discarding the partial record so that a
/// later matching object can still be found.
pub open spec fn scan_object_rec(
    lines: Seq<Seq<char>>,
    marker: Seq<char>,
    inside: bool,
    w: Option<u32>,
    h: Option<u32>,
) -> Option<(u32, u32)>
    decreases lines.len(),
{
    if lines.len() == 0 {
        None
    } else {
        let line = trim_spec(lines[0]);
        let rest = lines.drop_first();
        if contains_spec(line, marker) {
            scan_object_rec(rest, marker, true, w, h)
        } else if inside && starts_with_spec(line, "\"width\":"@) {
            scan_object_rec(rest, marker, true, field_u32_spec(line), h)
        } else if inside && starts_with_spec(line, "\"height\":"@) {
            scan_object_rec(rest, marker, true, w, field_u32_spec(line))
        } else if inside && line == "}"@ {
            if w is Some && h is Some {
                Some((w->Some_0, h->Some_0))
            } else {
                scan_object_rec(rest, marker, false, None, None)
            }
        } else {
            scan_object_rec(rest, marker, inside, w, h)
        }
    }
}

/// A document none of whose lines carries the marker yields no match.
pub proof fn lemma_scan_without_marker(lines: Seq<Seq<char>>, marker: Seq<char>)
    requires
        forall|i: int| 0 <= i < lines.len() ==> !contains_spec(trim_spec(#[trigger] lines[i]), marker),
    ensures
        scan_object_rec(lines, marker, false, None, None) is None,
    decreases lines.len(),
{
    if lines.len() == 0 {
    } else {
        let rest = lines.drop_first();
        assert forall|i: int| 0 <= i < rest.len() implies !contains_spec(
            trim_spec(#[trigger] rest[i]),
            marker,
        ) by {
            assert(rest[i] == lines[i + 1]);
        }
        lemma_scan_without_marker(rest, marker);
    }
}

/// Lines without the marker are skipped entirely while the scan is outside
/// an object of interest.
pub proof fn lemma_scan_skips_unmarked_prefix(
    pre: Seq<Seq<char>>,
    rest: Seq<Seq<char>>,
    marker: Seq<char>,
    w: Option<u32>,
    h: Option<u32>,
)
    requires
        forall|i: int| 0 <= i < pre.len() ==> !contains_spec(trim_spec(#[trigger] pre[i]), marker),
    ensures
        scan_object_rec(pre + rest, marker, false, w, h) == scan_object_rec(
            rest,
            marker,
            false,
            w,
            h,
        ),
    decreases pre.len(),
{
    if pre.len() == 0 {
        assert(pre + rest =~= rest);
    } else {
        let s = pre + rest;
        assert(s[0] == pre[0]);
        assert(s.drop_first() =~= pre.drop_first() + rest);
        assert forall|i: int| 0 <= i < pre.drop_first().len() implies !contains_spec(
            trim_spec(#[trigger] pre.drop_first()[i]),
            marker,
        ) by {
            assert(pre.drop_first()[i] == pre[i + 1]);
        }
        lemma_scan_skips_unmarked_prefix(pre.drop_first(), rest, marker, w, h);
    }
}

/// A document whose first marker line opens an object carrying both a
/// width and a height line yields exactly that object's dimensions,
/// whatever lines precede the marker and whatever follows the object —
/// with several matching objects, the first encountered wins.
pub proof fn lemma_scan_finds_first_complete_object(
    pre: Seq<Seq<char>>,
    ml: Seq<char>,
    wl: Seq<char>,
    hl: Seq<char>,
    bl: Seq<char>,
    post: Seq<Seq<char>>,
    marker: Seq<char>,
    w: u32,
    h: u32,
)
    requires
        forall|i: int| 0 <= i < pre.len() ==> !contains_spec(trim_spec(#[trigger] pre[i]), marker),
        contains_spec(trim_spec(ml), marker),
        !contains_spec(trim_spec(wl), marker),
        starts_with_spec(trim_spec(wl), "\"width\":"@),
        field_u32_spec(trim_spec(wl)) == Some(w),
        !contains_spec(trim_spec(hl), marker),
        !starts_with_spec(trim_spec(hl), "\"width\":"@),
        starts_with_spec(trim_spec(hl), "\"height\":"@),
        field_u32_spec(trim_spec(hl)) == Some(h),
        !contains_spec(trim_spec(bl), marker),
        trim_spec(bl) == "}"@,
    ensures
        scan_object_rec(pre + seq![ml, wl, hl, bl] + post, marker, false, None, None) == Some(
            (w, h),
        ),
{
    let obj = seq![ml, wl, hl, bl] + post;
    assert(pre + seq![ml, wl, hl, bl] + post =~= pre + obj);
    lemma_scan_skips_unmarked_prefix(pre, obj, marker, None, None);
    reveal_strlit("}");
    reveal_strlit("\"width\":");
    reveal_strlit("\"height\":");
    assert(obj[0] == ml);
    let s1 = obj.drop_first();
    assert(s1 =~= seq![wl, hl, bl] + post);
    assert(s1[0] == wl);
    let s2 = s1.drop_first();
    assert(s2 =~= seq![hl, bl] + post);
    assert(s2[0] == hl);
    let s3 = s2.drop_first();
    assert(s3 =~= seq![bl] + post);
    assert(s3[0] == bl);
    assert(!starts_with_spec(trim_spec(bl), "\"width\":"@));
    assert(!starts_with_spec(trim_spec(bl), "\"height\":"@));
    assert(scan_object_rec(obj, marker, false, None, None) == scan_object_rec(
        s1,
        marker,
        true,
        None,
        None,
    ));
    assert(scan_object_rec(s1, marker, true, None, None) == scan_object_rec(
        s2,
        marker,
        true,
        Some(w),
        None,
    ));
    assert(scan_object_rec(s2, marker, true, Some(w), None) == scan_object_rec(
        s3,
        marker,
        true,
        Some(w),
        Some(h),
    ));
    assert(scan_object_rec(s3, marker, true, Some(w), Some(h)) == Some((w, h)));
}

/// The key/value scan of a whole document.
pub open spec fn scan_object_spec(doc: Seq<char>, marker: Seq<char>) -> Option<(u32, u32)> {
    scan_object_rec(lines_spec(doc), marker, false, None, None)
}

/// Scans `doc` for the first object opened by a line containing `marker`
/// that yields both a width and a height.
pub fn scan_object(doc: &str, marker: &str) -> (r: Option<(u32, u32)>)
    ensures
        r == scan_object_spec(doc@, marker@),
{
    let lines = split_lines(doc);
    let ghost lv = lines.deep_view();
    let n: usize = lines.len();
    let mut inside: bool = false;
    let mut w: Option<u32> = None;
    let mut h: Option<u32> = None;
    let mut i: usize = 0;
    proof {
        assert(lv.skip(0) =~= lv);
    }
    while i < n
        invariant
            i <= n,
            n == lines@.len(),
            lv == lines.deep_view(),
            scan_object_spec(doc@, marker@) == scan_object_rec(
                lv.skip(i as int),
                marker@,
                inside,
                w,
                h,
            ),
        decreases n - i,
    {
        proof {
            assert(lv.skip(i as int)[0] == lines@[i as int]@);
            assert(lv.skip(i as int).drop_first() =~= lv.skip(i as int + 1));
        }
        let line = trim_of(lines[i].as_str());
        if contains_str(line, marker) {
            inside = true;
        } else if inside && starts_with_str(line, "\"width\":") {
            w = field_u32(line);
        } else if inside && starts_with_str(line, "\"height\":") {
            h = field_u32(line);
        } else if inside && str_eq(line, "}") {
            if w.is_some() && h.is_some() {
                let rw = w.unwrap();
                let rh = h.unwrap();
                return Some((rw, rh));
            }
            inside = false;
            w = None;
            h = None;
        }
        i = i + 1;
    }
    proof {
        assert(lv.skip(n as int) =~= Seq::<Seq<char>>::empty());
    }
    None
}

} // verus!

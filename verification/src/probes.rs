//! One parsing routine per external information source.
//!
//! Each routine turns the text that one query tool prints into a resolution,
//! or nothing when the tool's output holds no usable record.  Running the
//! tools themselves is the caller's business; see `detect`.

use vstd::prelude::*;
use vstd::string::StrSliceExecFns;

use crate::detect::ScreenInfo;
use crate::scan::{
    field_name, field_name_spec, field_u32, field_u32_spec, parse_geometry, parse_geometry_spec,
    parse_mode, parse_mode_spec, scan_object, scan_object_spec, Geometry,
};
use crate::text::{
    contains_spec, contains_str, find_char, idx_of, lines_spec, parse_i32_spec, parse_i32_str,
    split_lines, split_once_spec, split_once_str, starts_with_spec, starts_with_str, str_eq,
    tokenize, tokens_of, trim_of, trim_spec,
};

verus! {

/// The dimensions of the monitor Hyprland reports as focused: the first
/// object gated by a `"focused": true` line that carries both fields.
pub open spec fn hyprctl_focused_spec(doc: Seq<char>) -> Option<(u32, u32)> {
    scan_object_spec(doc, "\"focused\": true"@)
}

/// Scans a `hyprctl monitors -j` listing for the focused monitor.
pub fn parse_hyprctl_focused(doc: &str) -> (r: Option<ScreenInfo>)
    ensures
        match r {
            Some(si) => hyprctl_focused_spec(doc@) == Some((si.width, si.height)),
            None => hyprctl_focused_spec(doc@) is None,
        },
{
    match scan_object(doc, "\"focused\": true") {
        Some(wh) => Some(ScreenInfo { width: wh.0, height: wh.1 }),
        None => None,
    }
}

/// The dimensions of the output Sway reports as holding the current mode:
/// the first object gated by a `"current": true` line with both fields.
pub open spec fn swaymsg_primary_spec(doc: Seq<char>) -> Option<(u32, u32)> {
    scan_object_spec(doc, "\"current\": true"@)
}

/// Scans a `swaymsg -t get_outputs` listing for an output with a current
/// mode, regardless of which output it is.
pub fn parse_swaymsg_output(doc: &str) -> (r: Option<ScreenInfo>)
    ensures
        match r {
            Some(si) => swaymsg_primary_spec(doc@) == Some((si.width, si.height)),
            None => swaymsg_primary_spec(doc@) is None,
        },
{
    match scan_object(doc, "\"current\": true") {
        Some(wh) => Some(ScreenInfo { width: wh.0, height: wh.1 }),
        None => None,
    }
}

/// The first width/height pair found anywhere in a monitor listing,
/// ungated: fields accumulate line by line and the scan stops as soon as
/// both are set.
pub open spec fn hyprctl_any_rec(
    lines: Seq<Seq<char>>,
    w: Option<u32>,
    h: Option<u32>,
) -> Option<(u32, u32)>
    decreases lines.len(),
{
    if lines.len() == 0 {
        None
    } else {
        let line = trim_spec(lines[0]);
        let rest = lines.drop_first();
        let w2 = if starts_with_spec(line, "\"width\":"@) {
            field_u32_spec(line)
        } else {
            w
        };
        let h2 = if !starts_with_spec(line, "\"width\":"@) && starts_with_spec(
            line,
            "\"height\":"@,
        ) {
            field_u32_spec(line)
        } else {
            h
        };
        if w2 is Some && h2 is Some {
            Some((w2->Some_0, h2->Some_0))
        } else {
            hyprctl_any_rec(rest, w2, h2)
        }
    }
}

/// The first width/height pair of a whole monitor listing.
pub open spec fn hyprctl_any_spec(doc: Seq<char>) -> Option<(u32, u32)> {
    hyprctl_any_rec(lines_spec(doc), None, None)
}

/// Scans a `hyprctl monitors -j` listing for any monitor's dimensions.
pub fn parse_hyprctl_output(doc: &str) -> (r: Option<ScreenInfo>)
    ensures
        match r {
            Some(si) => hyprctl_any_spec(doc@) == Some((si.width, si.height)),
            None => hyprctl_any_spec(doc@) is None,
        },
{
    let lines = split_lines(doc);
    let ghost lv = lines.deep_view();
    let n: usize = lines.len();
    let mut w: Option<u32> = None;
    let mut h: Option<u32> = None;
    let mut i: usize = 0;
    proof {
        assert(lv.skip(0) =~= lv);
    }
    while i < n
        invariant
            i <= n,
            n == lines@.len(),
            lv == lines.deep_view(),
            hyprctl_any_spec(doc@) == hyprctl_any_rec(lv.skip(i as int), w, h),
        decreases n - i,
    {
        proof {
            assert(lv.skip(i as int)[0] == lines@[i as int]@);
            assert(lv.skip(i as int).drop_first() =~= lv.skip(i as int + 1));
        }
        let line = trim_of(lines[i].as_str());
        if starts_with_str(line, "\"width\":") {
            w = field_u32(line);
        } else if starts_with_str(line, "\"height\":") {
            h = field_u32(line);
        }
        if w.is_some() && h.is_some() {
            let rw = w.unwrap();
            let rh = h.unwrap();
            return Some(ScreenInfo { width: rw, height: rh });
        }
        i = i + 1;
    }
    proof {
        assert(lv.skip(n as int) =~= Seq::<Seq<char>>::empty());
    }
    None
}

/// The workspace scan, one line at a time: within the current object an
/// `"output":` line sets the pending name and a `"focused": true` line
/// marks the object as the focused workspace, in either order; a lone `}`
/// closes the object, yielding its own output name when it was marked and
/// otherwise discarding both so that a later workspace can still match.
pub open spec fn sway_focused_name_rec(
    lines: Seq<Seq<char>>,
    focused: bool,
    pending: Option<Seq<char>>,
) -> Option<Seq<char>>
    decreases lines.len(),
{
    if lines.len() == 0 {
        None
    } else {
        let line = trim_spec(lines[0]);
        let rest = lines.drop_first();
        if contains_spec(line, "\"focused\": true"@) {
            sway_focused_name_rec(rest, true, pending)
        } else if starts_with_spec(line, "\"output\":"@) {
            sway_focused_name_rec(rest, focused, field_name_spec(line))
        } else if line == "}"@ {
            if focused && pending is Some {
                pending
            } else {
                sway_focused_name_rec(rest, false, None)
            }
        } else {
            sway_focused_name_rec(rest, focused, pending)
        }
    }
}

/// The output name attached to the focused workspace: the `"output":`
/// field inside the object that carries the `"focused": true` marker.
pub open spec fn focused_output_name_spec(doc: Seq<char>) -> Option<Seq<char>> {
    sway_focused_name_rec(lines_spec(doc), false, None)
}

/// Finds, in a `swaymsg -t get_workspaces` listing, the name of the output
/// that the focused workspace sits on.
pub fn focused_output_name(doc: &str) -> (r: Option<String>)
    ensures
        match r {
            Some(nm) => focused_output_name_spec(doc@) == Some(nm@),
            None => focused_output_name_spec(doc@) is None,
        },
{
    let lines = split_lines(doc);
    let ghost lv = lines.deep_view();
    let n: usize = lines.len();
    let mut focused: bool = false;
    let mut pending: Option<String> = None;
    let mut i: usize = 0;
    proof {
        assert(lv.skip(0) =~= lv);
    }
    while i < n
        invariant
            i <= n,
            n == lines@.len(),
            lv == lines.deep_view(),
            lv == lines_spec(doc@),
            focused_output_name_spec(doc@) == sway_focused_name_rec(
                lv.skip(i as int),
                focused,
                pending.deep_view(),
            ),
        decreases n - i,
    {
        proof {
            assert(lv.skip(i as int)[0] == lines@[i as int]@);
            assert(lv.skip(i as int).drop_first() =~= lv.skip(i as int + 1));
        }
        let line = trim_of(lines[i].as_str());
        if contains_str(line, "\"focused\": true") {
            focused = true;
        } else if starts_with_str(line, "\"output\":") {
            pending = match field_name(line) {
                Some(nm) => Some(nm.to_owned()),
                None => None,
            };
        } else if str_eq(line, "}") {
            if focused && pending.is_some() {
                return pending;
            }
            focused = false;
            pending = None;
        }
        i = i + 1;
    }
    proof {
        assert(lv.skip(n as int) =~= Seq::<Seq<char>>::empty());
    }
    None
}

/// The scan of an output listing restricted to one output name: a `"name":`
/// line mentioning the name opens the target output; inside it, a
/// `"current": true` line opens the current mode, whose width and height
/// are collected; a lone `}` closes the mode record, yielding the
/// dimensions when both were seen; a lone `]` ends the target output's
/// mode list and with it the whole scan.
pub open spec fn sway_by_name_rec(
    lines: Seq<Seq<char>>,
    name: Seq<char>,
    in_target: bool,
    in_current: bool,
    w: Option<u32>,
    h: Option<u32>,
) -> Option<(u32, u32)>
    decreases lines.len(),
{
    if lines.len() == 0 {
        None
    } else {
        let line = trim_spec(lines[0]);
        let rest = lines.drop_first();
        if starts_with_spec(line, "\"name\":"@) && contains_spec(line, name) {
            sway_by_name_rec(rest, name, true, in_current, w, h)
        } else if in_target && contains_spec(line, "\"current\": true"@) {
            sway_by_name_rec(rest, name, in_target, true, w, h)
        } else if in_target && in_current && starts_with_spec(line, "\"width\":"@) {
            sway_by_name_rec(rest, name, in_target, in_current, field_u32_spec(line), h)
        } else if in_target && in_current && starts_with_spec(line, "\"height\":"@) {
            sway_by_name_rec(rest, name, in_target, in_current, w, field_u32_spec(line))
        } else if in_current && line == "}"@ {
            if w is Some && h is Some {
                Some((w->Some_0, h->Some_0))
            } else {
                sway_by_name_rec(rest, name, in_target, false, None, None)
            }
        } else if in_target && line == "]"@ {
            None
        } else {
            sway_by_name_rec(rest, name, in_target, in_current, w, h)
        }
    }
}

/// The two-stage scan of a whole output listing.
pub open spec fn sway_by_name_spec(doc: Seq<char>, name: Seq<char>) -> Option<(u32, u32)> {
    sway_by_name_rec(lines_spec(doc), name, false, false, None, None)
}

/// Scans a `swaymsg -t get_outputs` listing for the current mode of the
/// output called `name`.
pub fn parse_sway_output_by_name(doc: &str, name: &str) -> (r: Option<ScreenInfo>)
    ensures
        match r {
            Some(si) => sway_by_name_spec(doc@, name@) == Some((si.width, si.height)),
            None => sway_by_name_spec(doc@, name@) is None,
        },
{
    let lines = split_lines(doc);
    let ghost lv = lines.deep_view();
    let n: usize = lines.len();
    let mut in_target: bool = false;
    let mut in_current: bool = false;
    let mut w: Option<u32> = None;
    let mut h: Option<u32> = None;
    let mut i: usize = 0;
    proof {
        assert(lv.skip(0) =~= lv);
    }
    while i < n
        invariant
            i <= n,
            n == lines@.len(),
            lv == lines.deep_view(),
            sway_by_name_spec(doc@, name@) == sway_by_name_rec(
                lv.skip(i as int),
                name@,
                in_target,
                in_current,
                w,
                h,
            ),
        decreases n - i,
    {
        proof {
            assert(lv.skip(i as int)[0] == lines@[i as int]@);
            assert(lv.skip(i as int).drop_first() =~= lv.skip(i as int + 1));
        }
        let line = trim_of(lines[i].as_str());
        if starts_with_str(line, "\"name\":") && contains_str(line, name) {
            in_target = true;
        } else if in_target && contains_str(line, "\"current\": true") {
            in_current = true;
        } else if in_target && in_current && starts_with_str(line, "\"width\":") {
            w = field_u32(line);
        } else if in_target && in_current && starts_with_str(line, "\"height\":") {
            h = field_u32(line);
        } else if in_current && str_eq(line, "}") {
            if w.is_some() && h.is_some() {
                let rw = w.unwrap();
                let rh = h.unwrap();
                return Some(ScreenInfo { width: rw, height: rh });
            }
            in_current = false;
            w = None;
            h = None;
        } else if in_target && str_eq(line, "]") {
            return None;
        }
        i = i + 1;
    }
    proof {
        assert(lv.skip(n as int) =~= Seq::<Seq<char>>::empty());
    }
    None
}

/// The `WxH` mode written by a line's first whitespace-separated token.
pub open spec fn first_token_mode(line: Seq<char>) -> Option<(u32, u32)> {
    let ts = tokens_of(line);
    if ts.len() > 0 {
        parse_mode_spec(ts[0])
    } else {
        None
    }
}

/// The mode on the first line of a `wlr-randr` listing that mentions
/// `current` and opens with a parsable `WxH` token.
pub open spec fn wlr_rec(lines: Seq<Seq<char>>) -> Option<(u32, u32)>
    decreases lines.len(),
{
    if lines.len() == 0 {
        None
    } else if contains_spec(lines[0], "current"@) && first_token_mode(lines[0]) is Some {
        first_token_mode(lines[0])
    } else {
        wlr_rec(lines.drop_first())
    }
}

/// The current mode of a whole `wlr-randr` listing.
pub open spec fn wlr_spec(doc: Seq<char>) -> Option<(u32, u32)> {
    wlr_rec(lines_spec(doc))
}

/// Scans a `wlr-randr` listing for the mode marked current.
pub fn parse_wlr_randr_output(doc: &str) -> (r: Option<ScreenInfo>)
    ensures
        match r {
            Some(si) => wlr_spec(doc@) == Some((si.width, si.height)),
            None => wlr_spec(doc@) is None,
        },
{
    let lines = split_lines(doc);
    let ghost lv = lines.deep_view();
    let n: usize = lines.len();
    let mut i: usize = 0;
    proof {
        assert(lv.skip(0) =~= lv);
    }
    while i < n
        invariant
            i <= n,
            n == lines@.len(),
            lv == lines.deep_view(),
            wlr_spec(doc@) == wlr_rec(lv.skip(i as int)),
        decreases n - i,
    {
        proof {
            assert(lv.skip(i as int)[0] == lines@[i as int]@);
            assert(lv.skip(i as int).drop_first() =~= lv.skip(i as int + 1));
        }
        let line = lines[i].as_str();
        if contains_str(line, "current") {
            let toks = tokenize(line);
            if toks.len() > 0 {
                proof {
                    assert(toks.deep_view()[0] == toks@[0]@);
                }
                match parse_mode(toks[0].as_str()) {
                    Some(wh) => {
                        return Some(ScreenInfo { width: wh.0, height: wh.1 });
                    },
                    None => {},
                }
            }
        }
        i = i + 1;
    }
    proof {
        assert(lv.skip(n as int) =~= Seq::<Seq<char>>::empty());
    }
    None
}

/// A token shaped like a geometry: it mentions both an `x` and a `+`.
pub open spec fn geometry_shaped(tok: Seq<char>) -> bool {
    idx_of(tok, 'x') is Some && idx_of(tok, '+') is Some
}

fn geometry_shaped_exec(tok: &str) -> (b: bool)
    ensures
        b == geometry_shaped(tok@),
{
    let hx = find_char(tok, 'x');
    let hp = find_char(tok, '+');
    hx.is_some() && hp.is_some()
}

/// The first geometry-shaped token of a token list.
pub open spec fn first_geometry_token(toks: Seq<Seq<char>>) -> Option<Seq<char>>
    decreases toks.len(),
{
    if toks.len() == 0 {
        None
    } else if geometry_shaped(toks[0]) {
        Some(toks[0])
    } else {
        first_geometry_token(toks.drop_first())
    }
}

/// The dimensions written by a geometry token, its offsets ignored.
pub open spec fn token_dims(tok: Seq<char>) -> Option<(u32, u32)> {
    match split_once_spec(tok, '+') {
        Some(p) => parse_mode_spec(p.0),
        None => None,
    }
}

/// The dimensions taken from one `xrandr` line's tokens: every
/// geometry-shaped token is tried in order until one parses.
pub open spec fn xrandr_line_dims_rec(toks: Seq<Seq<char>>) -> Option<(u32, u32)>
    decreases toks.len(),
{
    if toks.len() == 0 {
        None
    } else if geometry_shaped(toks[0]) && token_dims(toks[0]) is Some {
        token_dims(toks[0])
    } else {
        xrandr_line_dims_rec(toks.drop_first())
    }
}

fn xrandr_line_dims(line: &str) -> (r: Option<(u32, u32)>)
    ensures
        r == xrandr_line_dims_rec(tokens_of(line@)),
{
    let toks = tokenize(line);
    let ghost tv = toks.deep_view();
    let m: usize = toks.len();
    let mut k: usize = 0;
    proof {
        assert(tv.skip(0) =~= tv);
    }
    while k < m
        invariant
            k <= m,
            m == toks@.len(),
            tv == toks.deep_view(),
            tv == tokens_of(line@),
            xrandr_line_dims_rec(tokens_of(line@)) == xrandr_line_dims_rec(tv.skip(k as int)),
        decreases m - k,
    {
        proof {
            assert(tv.skip(k as int)[0] == toks@[k as int]@);
            assert(tv.skip(k as int).drop_first() =~= tv.skip(k as int + 1));
        }
        let tok = toks[k].as_str();
        if geometry_shaped_exec(tok) {
            match split_once_str(tok, '+') {
                Some(p) => {
                    match parse_mode(p.0) {
                        Some(wh) => {
                            return Some(wh);
                        },
                        None => {},
                    }
                },
                None => {},
            }
        }
        k = k + 1;
    }
    proof {
        assert(tv.skip(m as int) =~= Seq::<Seq<char>>::empty());
    }
    None
}

/// A line describing the primary display: it mentions both `primary` and
/// `connected`.
pub open spec fn primary_line(line: Seq<char>) -> bool {
    contains_spec(line, "primary"@) && contains_spec(line, "connected"@)
}

/// A line describing a connected display.
pub open spec fn connected_line(line: Seq<char>) -> bool {
    contains_spec(line, "connected"@) && !contains_spec(line, "disconnected"@)
}

/// The dimensions on the first primary line that carries a parsable
/// geometry token.
pub open spec fn xrandr_primary_rec(lines: Seq<Seq<char>>) -> Option<(u32, u32)>
    decreases lines.len(),
{
    if lines.len() == 0 {
        None
    } else if primary_line(lines[0]) && xrandr_line_dims_rec(tokens_of(lines[0])) is Some {
        xrandr_line_dims_rec(tokens_of(lines[0]))
    } else {
        xrandr_primary_rec(lines.drop_first())
    }
}

/// The primary display's dimensions in a whole `xrandr` listing.
pub open spec fn xrandr_primary_spec(doc: Seq<char>) -> Option<(u32, u32)> {
    xrandr_primary_rec(lines_spec(doc))
}

/// Scans an `xrandr --current` listing for the primary display.
pub fn parse_xrandr_primary(doc: &str) -> (r: Option<ScreenInfo>)
    ensures
        match r {
            Some(si) => xrandr_primary_spec(doc@) == Some((si.width, si.height)),
            None => xrandr_primary_spec(doc@) is None,
        },
{
    let lines = split_lines(doc);
    let ghost lv = lines.deep_view();
    let n: usize = lines.len();
    let mut i: usize = 0;
    proof {
        assert(lv.skip(0) =~= lv);
    }
    while i < n
        invariant
            i <= n,
            n == lines@.len(),
            lv == lines.deep_view(),
            xrandr_primary_spec(doc@) == xrandr_primary_rec(lv.skip(i as int)),
        decreases n - i,
    {
        proof {
            assert(lv.skip(i as int)[0] == lines@[i as int]@);
            assert(lv.skip(i as int).drop_first() =~= lv.skip(i as int + 1));
        }
        let line = lines[i].as_str();
        if contains_str(line, "primary") && contains_str(line, "connected") {
            match xrandr_line_dims(line) {
                Some(wh) => {
                    return Some(ScreenInfo { width: wh.0, height: wh.1 });
                },
                None => {},
            }
        }
        i = i + 1;
    }
    proof {
        assert(lv.skip(n as int) =~= Seq::<Seq<char>>::empty());
    }
    None
}

/// The dimensions on the first connected line that carries a parsable
/// geometry token.
pub open spec fn xrandr_any_rec(lines: Seq<Seq<char>>) -> Option<(u32, u32)>
    decreases lines.len(),
{
    if lines.len() == 0 {
        None
    } else if connected_line(lines[0]) && xrandr_line_dims_rec(tokens_of(lines[0])) is Some {
        xrandr_line_dims_rec(tokens_of(lines[0]))
    } else {
        xrandr_any_rec(lines.drop_first())
    }
}

/// The first connected display's dimensions in a whole `xrandr` listing.
pub open spec fn xrandr_any_spec(doc: Seq<char>) -> Option<(u32, u32)> {
    xrandr_any_rec(lines_spec(doc))
}

/// Scans an `xrandr --current` listing for any connected display.
pub fn parse_xrandr_any_connected(doc: &str) -> (r: Option<ScreenInfo>)
    ensures
        match r {
            Some(si) => xrandr_any_spec(doc@) == Some((si.width, si.height)),
            None => xrandr_any_spec(doc@) is None,
        },
{
    let lines = split_lines(doc);
    let ghost lv = lines.deep_view();
    let n: usize = lines.len();
    let mut i: usize = 0;
    proof {
        assert(lv.skip(0) =~= lv);
    }
    while i < n
        invariant
            i <= n,
            n == lines@.len(),
            lv == lines.deep_view(),
            xrandr_any_spec(doc@) == xrandr_any_rec(lv.skip(i as int)),
        decreases n - i,
    {
        proof {
            assert(lv.skip(i as int)[0] == lines@[i as int]@);
            assert(lv.skip(i as int).drop_first() =~= lv.skip(i as int + 1));
        }
        let line = lines[i].as_str();
        if contains_str(line, "connected") && !contains_str(line, "disconnected") {
            match xrandr_line_dims(line) {
                Some(wh) => {
                    return Some(ScreenInfo { width: wh.0, height: wh.1 });
                },
                None => {},
            }
        }
        i = i + 1;
    }
    proof {
        assert(lv.skip(n as int) =~= Seq::<Seq<char>>::empty());
    }
    None
}

/// The mouse coordinates accumulated over a cursor-query listing: `X=` and
/// `Y=` lines each set their coordinate from the text after the sign.
pub open spec fn mouse_rec(
    lines: Seq<Seq<char>>,
    mx: Option<i32>,
    my: Option<i32>,
) -> (Option<i32>, Option<i32>)
    decreases lines.len(),
{
    if lines.len() == 0 {
        (mx, my)
    } else {
        let line = lines[0];
        let mx2 = if starts_with_spec(line, "X="@) {
            parse_i32_spec(line.skip(2))
        } else {
            mx
        };
        let my2 = if !starts_with_spec(line, "X="@) && starts_with_spec(line, "Y="@) {
            parse_i32_spec(line.skip(2))
        } else {
            my
        };
        mouse_rec(lines.drop_first(), mx2, my2)
    }
}

/// The cursor position of a whole cursor-query listing, present only when
/// both coordinates were seen.
pub open spec fn mouse_spec(doc: Seq<char>) -> Option<(i32, i32)> {
    match mouse_rec(lines_spec(doc), None, None) {
        (Some(x), Some(y)) => Some((x, y)),
        _ => None,
    }
}

/// Scans an `xdotool getmouselocation --shell` listing for the cursor
/// position.
pub fn parse_mouse_location(doc: &str) -> (r: Option<(i32, i32)>)
    ensures
        r == mouse_spec(doc@),
{
    let lines = split_lines(doc);
    let ghost lv = lines.deep_view();
    let n: usize = lines.len();
    let mut mx: Option<i32> = None;
    let mut my: Option<i32> = None;
    let mut i: usize = 0;
    proof {
        assert(lv.skip(0) =~= lv);
    }
    while i < n
        invariant
            i <= n,
            n == lines@.len(),
            lv == lines.deep_view(),
            mouse_rec(lv, None, None) == mouse_rec(lv.skip(i as int), mx, my),
        decreases n - i,
    {
        proof {
            assert(lv.skip(i as int)[0] == lines@[i as int]@);
            assert(lv.skip(i as int).drop_first() =~= lv.skip(i as int + 1));
        }
        let line = lines[i].as_str();
        let ln: usize = line.unicode_len();
        proof {
            reveal_strlit("X=");
            reveal_strlit("Y=");
        }
        if starts_with_str(line, "X=") {
            let tail = line.substring_char(2, ln);
            proof {
                assert(tail@ =~= line@.skip(2));
            }
            mx = parse_i32_str(tail);
        } else if starts_with_str(line, "Y=") {
            let tail = line.substring_char(2, ln);
            proof {
                assert(tail@ =~= line@.skip(2));
            }
            my = parse_i32_str(tail);
        }
        i = i + 1;
    }
    proof {
        assert(lv.skip(n as int) =~= Seq::<Seq<char>>::empty());
    }
    match (mx, my) {
        (Some(x), Some(y)) => Some((x, y)),
        _ => None,
    }
}

/// The geometry contributed by one `xrandr` line: connected lines offer
/// their first geometry-shaped token, and only if it parses.
pub open spec fn line_geometry(line: Seq<char>) -> Option<Geometry> {
    if connected_line(line) {
        match first_geometry_token(tokens_of(line)) {
            Some(tok) => parse_geometry_spec(tok),
            None => None,
        }
    } else {
        None
    }
}

/// Every display rectangle listed by an `xrandr` document, in order.
pub open spec fn rects_rec(lines: Seq<Seq<char>>) -> Seq<Geometry>
    decreases lines.len(),
{
    if lines.len() == 0 {
        Seq::empty()
    } else {
        match line_geometry(lines[0]) {
            Some(g) => seq![g] + rects_rec(lines.drop_first()),
            None => rects_rec(lines.drop_first()),
        }
    }
}

/// The rectangles of a whole `xrandr` listing.
pub open spec fn rects_spec(doc: Seq<char>) -> Seq<Geometry> {
    rects_rec(lines_spec(doc))
}

fn line_geometry_exec(line: &str) -> (r: Option<Geometry>)
    ensures
        r == line_geometry(line@),
{
    if !(contains_str(line, "connected") && !contains_str(line, "disconnected")) {
        return None;
    }
    let toks = tokenize(line);
    let ghost tv = toks.deep_view();
    let m: usize = toks.len();
    let mut k: usize = 0;
    proof {
        assert(tv.skip(0) =~= tv);
    }
    while k < m
        invariant
            k <= m,
            m == toks@.len(),
            tv == toks.deep_view(),
            tv == tokens_of(line@),
            connected_line(line@),
            first_geometry_token(tv) == first_geometry_token(tv.skip(k as int)),
        decreases m - k,
    {
        proof {
            assert(tv.skip(k as int)[0] == toks@[k as int]@);
            assert(tv.skip(k as int).drop_first() =~= tv.skip(k as int + 1));
        }
        let tok = toks[k].as_str();
        if geometry_shaped_exec(tok) {
            return parse_geometry(tok);
        }
        k = k + 1;
    }
    proof {
        assert(tv.skip(m as int) =~= Seq::<Seq<char>>::empty());
    }
    None
}

/// Collects the display rectangles of an `xrandr --current` listing.
pub fn collect_rects(doc: &str) -> (v: Vec<Geometry>)
    ensures
        v@ == rects_spec(doc@),
{
    let lines = split_lines(doc);
    let ghost lv = lines.deep_view();
    let n: usize = lines.len();
    let mut v: Vec<Geometry> = Vec::new();
    let mut i: usize = 0;
    proof {
        assert(lv.skip(0) =~= lv);
        assert(v@ + rects_rec(lv) =~= rects_rec(lv));
    }
    while i < n
        invariant
            i <= n,
            n == lines@.len(),
            lv == lines.deep_view(),
            rects_rec(lv) == v@ + rects_rec(lv.skip(i as int)),
        decreases n - i,
    {
        proof {
            assert(lv.skip(i as int)[0] == lines@[i as int]@);
            assert(lv.skip(i as int).drop_first() =~= lv.skip(i as int + 1));
        }
        let ghost v0 = v@;
        match line_geometry_exec(lines[i].as_str()) {
            Some(g) => {
                v.push(g);
                proof {
                    assert(v@ =~= v0.push(g));
                    assert(v0 + (seq![g] + rects_rec(lv.skip(i as int + 1))) =~= v0.push(g)
                        + rects_rec(lv.skip(i as int + 1)));
                }
            },
            None => {},
        }
        i = i + 1;
    }
    proof {
        assert(lv.skip(n as int) =~= Seq::<Seq<char>>::empty());
        assert(v@ + rects_rec(lv.skip(n as int)) =~= v@);
    }
    v
}

/// The cursor lies inside the rectangle.
pub open spec fn geo_contains(g: Geometry, x: int, y: int) -> bool {
    &&& g.x <= x < g.x + g.width
    &&& g.y <= y < g.y + g.height
}

/// The gap between a coordinate and a span: zero inside the span, and
/// otherwise the distance to the span's nearest cell.
pub open spec fn axis_gap(lo: int, size: int, v: int) -> int {
    if v < lo {
        lo - v
    } else if v >= lo + size {
        v - (lo + size - 1)
    } else {
        0
    }
}

/// The Manhattan distance from the cursor to the rectangle: the sum of the
/// two per-axis gaps.
pub open spec fn geo_dist(g: Geometry, x: int, y: int) -> int {
    axis_gap(g.x as int, g.width as int, x) + axis_gap(g.y as int, g.height as int, y)
}

fn geo_contains_exec(g: &Geometry, x: i32, y: i32) -> (b: bool)
    ensures
        b == geo_contains(*g, x as int, y as int),
{
    (x >= g.x) && ((x as i64) < (g.x as i64) + (g.width as i64)) && (y >= g.y) && ((y as i64) < (
    g.y as i64) + (g.height as i64))
}

fn axis_gap_exec(lo: i32, size: u32, v: i32) -> (d: i64)
    ensures
        d == axis_gap(lo as int, size as int, v as int),
{
    if v < lo {
        (lo as i64) - (v as i64)
    } else if (v as i64) >= (lo as i64) + (size as i64) {
        (v as i64) - ((lo as i64) + (size as i64) - 1)
    } else {
        0
    }
}

fn geo_dist_exec(g: &Geometry, x: i32, y: i32) -> (d: i64)
    ensures
        d == geo_dist(*g, x as int, y as int),
{
    axis_gap_exec(g.x, g.width, x) + axis_gap_exec(g.y, g.height, y)
}

/// The rectangle the cursor selects, walking the candidates in order: the
/// first rectangle containing the cursor wins outright; among the earlier
/// candidates, `best` holds the one with the smallest distance so far, and a
/// later rectangle takes its place only when strictly closer.
pub open spec fn select_rec(
    rs: Seq<Geometry>,
    x: int,
    y: int,
    best: Option<Geometry>,
) -> Option<Geometry>
    decreases rs.len(),
{
    if rs.len() == 0 {
        best
    } else {
        let g = rs[0];
        if geo_contains(g, x, y) {
            Some(g)
        } else {
            let nb = match best {
                None => Some(g),
                Some(b) => if geo_dist(g, x, y) < geo_dist(b, x, y) {
                    Some(g)
                } else {
                    Some(b)
                },
            };
            select_rec(rs.drop_first(), x, y, nb)
        }
    }
}

/// The rectangle selected by the cursor among all candidates.
pub open spec fn select_spec(rs: Seq<Geometry>, x: int, y: int) -> Option<Geometry> {
    select_rec(rs, x, y, None)
}

/// Selects the rectangle at, or failing that nearest to, the cursor.
pub fn select_geometry(rects: &Vec<Geometry>, x: i32, y: i32) -> (r: Option<Geometry>)
    ensures
        r == select_spec(rects@, x as int, y as int),
{
    let n: usize = rects.len();
    let mut best: Option<Geometry> = None;
    let mut i: usize = 0;
    proof {
        assert(rects@.skip(0) =~= rects@);
    }
    while i < n
        invariant
            i <= n,
            n == rects@.len(),
            select_spec(rects@, x as int, y as int) == select_rec(
                rects@.skip(i as int),
                x as int,
                y as int,
                best,
            ),
        decreases n - i,
    {
        proof {
            assert(rects@.skip(i as int)[0] == rects@[i as int]);
            assert(rects@.skip(i as int).drop_first() =~= rects@.skip(i as int + 1));
        }
        let g = rects[i];
        if geo_contains_exec(&g, x, y) {
            return Some(g);
        }
        best = match best {
            None => Some(g),
            Some(b) => {
                if geo_dist_exec(&g, x, y) < geo_dist_exec(&b, x, y) {
                    Some(g)
                } else {
                    Some(b)
                }
            },
        };
        i = i + 1;
    }
    proof {
        assert(rects@.skip(n as int) =~= Seq::<Geometry>::empty());
    }
    best
}

proof fn lemma_select_rec_first_containing(
    rs: Seq<Geometry>,
    x: int,
    y: int,
    best: Option<Geometry>,
    i: int,
)
    requires
        0 <= i < rs.len(),
        geo_contains(rs[i], x, y),
        forall|j: int| 0 <= j < i ==> !geo_contains(rs[j], x, y),
    ensures
        select_rec(rs, x, y, best) == Some(rs[i]),
    decreases rs.len(),
{
    if i == 0 {
    } else {
        let g = rs[0];
        let nb = match best {
            None => Some(g),
            Some(b) => if geo_dist(g, x, y) < geo_dist(b, x, y) {
                Some(g)
            } else {
                Some(b)
            },
        };
        let t = rs.drop_first();
        assert(t[i - 1] == rs[i]);
        assert forall|j: int| 0 <= j < i - 1 implies !geo_contains(t[j], x, y) by {
            assert(t[j] == rs[j + 1]);
        }
        lemma_select_rec_first_containing(t, x, y, nb, i - 1);
    }
}

/// Mouse containment takes precedence: when some candidate rectangle
/// contains the cursor, the first containing candidate is selected,
/// whatever the distance ranking says.
pub proof fn lemma_select_containment_precedence(rs: Seq<Geometry>, x: int, y: int, i: int)
    requires
        0 <= i < rs.len(),
        geo_contains(rs[i], x, y),
        forall|j: int| 0 <= j < i ==> !geo_contains(rs[j], x, y),
    ensures
        select_spec(rs, x, y) == Some(rs[i]),
{
    lemma_select_rec_first_containing(rs, x, y, None, i);
}

#[verifier::rlimit(40)]
proof fn lemma_select_rec_closest(rs: Seq<Geometry>, x: int, y: int, b: Geometry)
    requires
        forall|j: int| 0 <= j < rs.len() ==> !geo_contains(rs[j], x, y),
    ensures
        (select_rec(rs, x, y, Some(b)) == Some(b) && (forall|j: int|
            0 <= j < rs.len() ==> geo_dist(b, x, y) <= geo_dist(rs[j], x, y))) || (exists|i: int|
            {
                &&& 0 <= i < rs.len()
                &&& select_rec(rs, x, y, Some(b)) == Some(rs[i])
                &&& geo_dist(rs[i], x, y) < geo_dist(b, x, y)
                &&& forall|j: int| 0 <= j < rs.len() ==> geo_dist(rs[i], x, y) <= geo_dist(
                    rs[j],
                    x,
                    y,
                )
                &&& forall|j: int| 0 <= j < i ==> geo_dist(rs[i], x, y) < geo_dist(rs[j], x, y)
            }),
    decreases rs.len(),
{
    if rs.len() == 0 {
    } else {
        let g = rs[0];
        let nbg = geo_dist(g, x, y) < geo_dist(b, x, y);
        let nb = if nbg {
            g
        } else {
            b
        };
        let t = rs.drop_first();
        assert forall|j: int| 0 <= j < t.len() implies !geo_contains(#[trigger] t[j], x, y) by {
            assert(t[j] == rs[j + 1]);
        }
        lemma_select_rec_closest(t, x, y, nb);
        assert(forall|j: int| 0 <= j < t.len() ==> #[trigger] t[j] == rs[j + 1]);
        if select_rec(t, x, y, Some(nb)) == Some(nb) && (forall|j: int|
            0 <= j < t.len() ==> geo_dist(nb, x, y) <= geo_dist(t[j], x, y)) {
            assert forall|j: int| 0 <= j < rs.len() implies geo_dist(nb, x, y) <= geo_dist(
                #[trigger] rs[j],
                x,
                y,
            ) by {
                if j > 0 {
                    assert(rs[j] == t[j - 1]);
                    assert(geo_dist(nb, x, y) <= geo_dist(t[j - 1], x, y));
                }
            }
            if nbg {
                let i = 0int;
                assert(select_rec(rs, x, y, Some(b)) == Some(rs[i]));
                assert(geo_dist(rs[i], x, y) < geo_dist(b, x, y));
            } else {
                assert(select_rec(rs, x, y, Some(b)) == Some(b));
            }
        } else {
            let ip = choose|ip: int|
                {
                    &&& 0 <= ip < t.len()
                    &&& select_rec(t, x, y, Some(nb)) == Some(t[ip])
                    &&& geo_dist(t[ip], x, y) < geo_dist(nb, x, y)
                    &&& forall|j: int| 0 <= j < t.len() ==> geo_dist(t[ip], x, y) <= geo_dist(
                        t[j],
                        x,
                        y,
                    )
                    &&& forall|j: int| 0 <= j < ip ==> geo_dist(t[ip], x, y) < geo_dist(t[j], x, y)
                };
            let i = ip + 1;
            assert(rs[i] == t[ip]);
            assert(geo_dist(rs[i], x, y) < geo_dist(nb, x, y));
            assert(geo_dist(nb, x, y) <= geo_dist(b, x, y));
            assert(geo_dist(nb, x, y) <= geo_dist(g, x, y));
            assert forall|j: int| 0 <= j < rs.len() implies geo_dist(rs[i], x, y) <= geo_dist(
                rs[j],
                x,
                y,
            ) by {
                if j > 0 {
                    assert(rs[j] == t[j - 1]);
                }
            }
            assert forall|j: int| 0 <= j < i implies geo_dist(rs[i], x, y) < geo_dist(
                rs[j],
                x,
                y,
            ) by {
                if j > 0 {
                    assert(rs[j] == t[j - 1]);
                }
            }
        }
    }
}

/// Closest-match fallback: with the cursor outside every candidate, the
/// selected rectangle minimises the summed per-axis edge distance, and an
/// exact tie keeps the earliest candidate.
pub proof fn lemma_select_closest_fallback(rs: Seq<Geometry>, x: int, y: int)
    requires
        rs.len() > 0,
        forall|j: int| 0 <= j < rs.len() ==> !geo_contains(rs[j], x, y),
    ensures
        exists|i: int|
            {
                &&& 0 <= i < rs.len()
                &&& select_spec(rs, x, y) == Some(rs[i])
                &&& forall|j: int| 0 <= j < rs.len() ==> geo_dist(#[trigger] rs[i], x, y)
                    <= geo_dist(rs[j], x, y)
                &&& forall|j: int| 0 <= j < i ==> geo_dist(rs[i], x, y) < geo_dist(rs[j], x, y)
            },
{
    let g = rs[0];
    let t = rs.drop_first();
    assert forall|j: int| 0 <= j < t.len() implies !geo_contains(#[trigger] t[j], x, y) by {
        assert(t[j] == rs[j + 1]);
    }
    assert(select_spec(rs, x, y) == select_rec(t, x, y, Some(g)));
    lemma_select_rec_closest(t, x, y, g);
    assert(forall|j: int| 0 <= j < t.len() ==> #[trigger] t[j] == rs[j + 1]);
    if select_rec(t, x, y, Some(g)) == Some(g) && (forall|j: int|
        0 <= j < t.len() ==> geo_dist(g, x, y) <= geo_dist(t[j], x, y)) {
        let i = 0int;
        assert(select_spec(rs, x, y) == Some(rs[i]));
        assert forall|j: int| 0 <= j < rs.len() implies geo_dist(rs[0], x, y) <= geo_dist(
            #[trigger] rs[j],
            x,
            y,
        ) by {
            if j > 0 {
                assert(rs[j] == t[j - 1]);
                assert(geo_dist(g, x, y) <= geo_dist(t[j - 1], x, y));
            }
        }
    } else {
        let ip = choose|ip: int|
            {
                &&& 0 <= ip < t.len()
                &&& select_rec(t, x, y, Some(g)) == Some(t[ip])
                &&& geo_dist(t[ip], x, y) < geo_dist(g, x, y)
                &&& forall|j: int| 0 <= j < t.len() ==> geo_dist(t[ip], x, y) <= geo_dist(
                    t[j],
                    x,
                    y,
                )
                &&& forall|j: int| 0 <= j < ip ==> geo_dist(t[ip], x, y) < geo_dist(t[j], x, y)
            };
        let i = ip + 1;
        assert(rs[i] == t[ip]);
        assert forall|j: int| 0 <= j < rs.len() implies geo_dist(#[trigger] rs[i], x, y)
            <= geo_dist(rs[j], x, y) by {
            if j > 0 {
                assert(rs[j] == t[j - 1]);
            }
        }
        assert forall|j: int| 0 <= j < i implies geo_dist(rs[i], x, y) < geo_dist(rs[j], x, y) by {
            if j > 0 {
                assert(rs[j] == t[j - 1]);
            }
        }
    }
}

/// What the mouse-based probe returns for a cursor position: the dimensions
/// of the selected rectangle.
pub open spec fn screen_at_position_spec(doc: Seq<char>, x: int, y: int) -> Option<(u32, u32)> {
    match select_spec(rects_spec(doc), x, y) {
        Some(g) => Some((g.width, g.height)),
        None => None,
    }
}

/// Finds, in an `xrandr --current` listing, the display under the cursor,
/// or failing containment the display nearest to it.
pub fn screen_at_position(doc: &str, x: i32, y: i32) -> (r: Option<ScreenInfo>)
    ensures
        match r {
            Some(si) => screen_at_position_spec(doc@, x as int, y as int) == Some(
                (si.width, si.height),
            ),
            None => screen_at_position_spec(doc@, x as int, y as int) is None,
        },
{
    let rects = collect_rects(doc);
    match select_geometry(&rects, x, y) {
        Some(g) => Some(ScreenInfo { width: g.width, height: g.height }),
        None => None,
    }
}

/// The first parsable `WxH` line of a sysfs mode list.
pub open spec fn drm_rec(lines: Seq<Seq<char>>) -> Option<(u32, u32)>
    decreases lines.len(),
{
    if lines.len() == 0 {
        None
    } else if parse_mode_spec(trim_spec(lines[0])) is Some {
        parse_mode_spec(trim_spec(lines[0]))
    } else {
        drm_rec(lines.drop_first())
    }
}

/// The first mode of a whole sysfs mode list.
pub open spec fn drm_spec(doc: Seq<char>) -> Option<(u32, u32)> {
    drm_rec(lines_spec(doc))
}

/// Scans the contents of a sysfs `modes` file for its first resolution.
pub fn parse_drm_modes(doc: &str) -> (r: Option<ScreenInfo>)
    ensures
        match r {
            Some(si) => drm_spec(doc@) == Some((si.width, si.height)),
            None => drm_spec(doc@) is None,
        },
{
    let lines = split_lines(doc);
    let ghost lv = lines.deep_view();
    let n: usize = lines.len();
    let mut i: usize = 0;
    proof {
        assert(lv.skip(0) =~= lv);
    }
    while i < n
        invariant
            i <= n,
            n == lines@.len(),
            lv == lines.deep_view(),
            drm_spec(doc@) == drm_rec(lv.skip(i as int)),
        decreases n - i,
    {
        proof {
            assert(lv.skip(i as int)[0] == lines@[i as int]@);
            assert(lv.skip(i as int).drop_first() =~= lv.skip(i as int + 1));
        }
        let line = trim_of(lines[i].as_str());
        match parse_mode(line) {
            Some(wh) => {
                return Some(ScreenInfo { width: wh.0, height: wh.1 });
            },
            None => {},
        }
        i = i + 1;
    }
    proof {
        assert(lv.skip(n as int) =~= Seq::<Seq<char>>::empty());
    }
    None
}

} // verus!

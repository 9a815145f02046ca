//! The resolution value type and the detection fallback chain.
//!
//! Detection is an ordered chain of probes, each fed by one external command
//! or file read.  The chain itself is a state machine: [`initial_step`] gives
//! the first state, [`query`] names the outside work one state needs, and
//! [`advance`] consumes that work's outcome — the tool's text, or `None`
//! when the tool was absent or failed — and moves to the next state.  The
//! caller loops until [`result_of`] yields the resolution; the final stage
//! cannot fail, so every run ends with one.

use vstd::prelude::*;

use crate::config::ScreenConfig;
use crate::probes::{
    drm_spec, focused_output_name, focused_output_name_spec, hyprctl_any_spec,
    hyprctl_focused_spec, mouse_spec, parse_drm_modes, parse_hyprctl_focused,
    parse_hyprctl_output, parse_mouse_location, parse_sway_output_by_name, parse_swaymsg_output,
    parse_wlr_randr_output, parse_xrandr_any_connected, parse_xrandr_primary, screen_at_position,
    screen_at_position_spec, sway_by_name_spec, swaymsg_primary_spec, wlr_spec,
    xrandr_any_spec, xrandr_primary_spec,
};

verus! {

/// A display's pixel dimensions.
///
/// A value of this type always carries both dimensions; probes that could not
/// establish both report nothing instead of a partial record.
#[derive(Clone, Copy, Debug, PartialEq, Eq, Structural)]
pub struct ScreenInfo {
    pub width: u32,
    pub height: u32,
}

impl Default for ScreenInfo {
    /// The hard-coded resolution used when every detection avenue fails.
    fn default() -> (r: Self)
        ensures
            r.width == 1920,
            r.height == 1080,
    {
        ScreenInfo { width: 1920, height: 1080 }
    }
}

/// The outside work one detection state asks its caller for.
#[derive(Clone, Copy, Debug, PartialEq, Eq, Structural)]
pub enum Query {
    /// Run `hyprctl monitors -j` and hand back its output.
    HyprlandMonitors,
    /// Run `swaymsg -t get_workspaces` and hand back its output.
    SwayWorkspaces,
    /// Run `swaymsg -t get_outputs` and hand back its output.
    SwayOutputs,
    /// Run `wlr-randr` and hand back its output.
    WlrRandr,
    /// Run `xdotool getmouselocation --shell` and hand back its output.
    MouseLocation,
    /// Run `xrandr --current` and hand back its output.
    XrandrCurrent,
    /// Read the next per-display `modes` file under the kernel's display
    /// tree and hand back its contents; `None` once no file is left.
    SysfsModes,
    /// Detection is over; no further work is needed.
    Finished,
}

/// One state of the detection chain.
pub enum DetectStep {
    /// Asking Hyprland for its focused monitor.
    HyprlandFocused,
    /// Asking Sway which workspace is focused.
    SwayFocusedWorkspaces,
    /// Asking Sway for the current mode of the named output.
    SwayFocusedOutputs { name: String },
    /// Asking `wlr-randr` for a current mode.
    WlrPrimary,
    /// Asking Hyprland for any monitor's dimensions.
    HyprlandPrimary,
    /// Asking Sway for any output's current mode.
    SwayPrimary,
    /// Asking for the mouse cursor's position.
    MouseQuery,
    /// Looking for the display at (or nearest to) the cursor.
    CursorScreen { x: i32, y: i32 },
    /// Looking for the primary or any connected X11 display.
    XrandrFallback,
    /// Walking the kernel's per-display mode lists.
    Sysfs,
    /// Detection finished with this resolution.
    Done { info: ScreenInfo },
}

/// The mathematical shadow of a [`DetectStep`].
pub enum StepModel {
    HyprlandFocused,
    SwayFocusedWorkspaces,
    SwayFocusedOutputs { name: Seq<char> },
    WlrPrimary,
    HyprlandPrimary,
    SwayPrimary,
    MouseQuery,
    CursorScreen { x: i32, y: i32 },
    XrandrFallback,
    Sysfs,
    Done { width: u32, height: u32 },
}

impl View for DetectStep {
    type V = StepModel;

    open spec fn view(&self) -> StepModel {
        match self {
            DetectStep::HyprlandFocused => StepModel::HyprlandFocused,
            DetectStep::SwayFocusedWorkspaces => StepModel::SwayFocusedWorkspaces,
            DetectStep::SwayFocusedOutputs { name } => StepModel::SwayFocusedOutputs {
                name: name@,
            },
            DetectStep::WlrPrimary => StepModel::WlrPrimary,
            DetectStep::HyprlandPrimary => StepModel::HyprlandPrimary,
            DetectStep::SwayPrimary => StepModel::SwayPrimary,
            DetectStep::MouseQuery => StepModel::MouseQuery,
            DetectStep::CursorScreen { x, y } => StepModel::CursorScreen { x: *x, y: *y },
            DetectStep::XrandrFallback => StepModel::XrandrFallback,
            DetectStep::Sysfs => StepModel::Sysfs,
            DetectStep::Done { info } => StepModel::Done {
                width: info.width,
                height: info.height,
            },
        }
    }
}

/// The state that follows the focused tier when it found nothing.
pub open spec fn after_focused_tier(cfg: ScreenConfig) -> StepModel {
    if cfg.prefer_focused_screen {
        StepModel::WlrPrimary
    } else {
        x11_or_sysfs(cfg)
    }
}

/// The state that follows the primary tier when it found nothing.
pub open spec fn after_primary_tier(cfg: ScreenConfig) -> StepModel {
    if cfg.prefer_focused_screen {
        x11_or_sysfs(cfg)
    } else {
        StepModel::HyprlandFocused
    }
}

/// Where both Wayland tiers being exhausted leads: the X11 probes when the
/// configuration permits them, else straight to the kernel fallback.
pub open spec fn x11_or_sysfs(cfg: ScreenConfig) -> StepModel {
    if cfg.allow_x11_fallback {
        StepModel::MouseQuery
    } else {
        StepModel::Sysfs
    }
}

/// The first state of a detection pass: the preferred tier's first probe.
pub open spec fn initial_spec(cfg: ScreenConfig) -> StepModel {
    if cfg.prefer_focused_screen {
        StepModel::HyprlandFocused
    } else {
        StepModel::WlrPrimary
    }
}

/// The view of an event: the text a tool printed, or `None` when it was
/// absent, failed, or (for the kernel tree) ran out of files.
pub open spec fn event_view(event: Option<&str>) -> Option<Seq<char>> {
    match event {
        Some(s) => Some(s@),
        None => None,
    }
}

/// The whole fallback chain, one step at a time: what each state does with
/// the text its query produced, and which state comes next.
pub open spec fn spec_advance(s: StepModel, e: Option<Seq<char>>, cfg: ScreenConfig) -> StepModel {
    match s {
        StepModel::HyprlandFocused => match e {
            Some(doc) => match hyprctl_focused_spec(doc) {
                Some(wh) => StepModel::Done { width: wh.0, height: wh.1 },
                None => StepModel::SwayFocusedWorkspaces,
            },
            None => StepModel::SwayFocusedWorkspaces,
        },
        StepModel::SwayFocusedWorkspaces => match e {
            Some(doc) => match focused_output_name_spec(doc) {
                Some(nm) => StepModel::SwayFocusedOutputs { name: nm },
                None => after_focused_tier(cfg),
            },
            None => after_focused_tier(cfg),
        },
        StepModel::SwayFocusedOutputs { name } => match e {
            Some(doc) => match sway_by_name_spec(doc, name) {
                Some(wh) => StepModel::Done { width: wh.0, height: wh.1 },
                None => after_focused_tier(cfg),
            },
            None => after_focused_tier(cfg),
        },
        StepModel::WlrPrimary => match e {
            Some(doc) => match wlr_spec(doc) {
                Some(wh) => StepModel::Done { width: wh.0, height: wh.1 },
                None => StepModel::HyprlandPrimary,
            },
            None => StepModel::HyprlandPrimary,
        },
        StepModel::HyprlandPrimary => match e {
            Some(doc) => match hyprctl_any_spec(doc) {
                Some(wh) => StepModel::Done { width: wh.0, height: wh.1 },
                None => StepModel::SwayPrimary,
            },
            None => StepModel::SwayPrimary,
        },
        StepModel::SwayPrimary => match e {
            Some(doc) => match swaymsg_primary_spec(doc) {
                Some(wh) => StepModel::Done { width: wh.0, height: wh.1 },
                None => after_primary_tier(cfg),
            },
            None => after_primary_tier(cfg),
        },
        StepModel::MouseQuery => match e {
            Some(doc) => match mouse_spec(doc) {
                Some(xy) => StepModel::CursorScreen { x: xy.0, y: xy.1 },
                None => StepModel::XrandrFallback,
            },
            None => StepModel::XrandrFallback,
        },
        StepModel::CursorScreen { x, y } => match e {
            Some(doc) => match screen_at_position_spec(doc, x as int, y as int) {
                Some(wh) => StepModel::Done { width: wh.0, height: wh.1 },
                None => StepModel::Sysfs,
            },
            None => StepModel::Sysfs,
        },
        StepModel::XrandrFallback => match e {
            Some(doc) => match xrandr_primary_spec(doc) {
                Some(wh) => StepModel::Done { width: wh.0, height: wh.1 },
                None => match xrandr_any_spec(doc) {
                    Some(wh) => StepModel::Done { width: wh.0, height: wh.1 },
                    None => StepModel::Sysfs,
                },
            },
            None => StepModel::Sysfs,
        },
        StepModel::Sysfs => match e {
            Some(doc) => match drm_spec(doc) {
                Some(wh) => StepModel::Done { width: wh.0, height: wh.1 },
                None => StepModel::Sysfs,
            },
            None => StepModel::Done { width: 1920, height: 1080 },
        },
        StepModel::Done { width, height } => StepModel::Done { width, height },
    }
}

/// The outside work `s` needs next.
pub open spec fn spec_query(s: StepModel) -> Query {
    match s {
        StepModel::HyprlandFocused => Query::HyprlandMonitors,
        StepModel::SwayFocusedWorkspaces => Query::SwayWorkspaces,
        StepModel::SwayFocusedOutputs { .. } => Query::SwayOutputs,
        StepModel::WlrPrimary => Query::WlrRandr,
        StepModel::HyprlandPrimary => Query::HyprlandMonitors,
        StepModel::SwayPrimary => Query::SwayOutputs,
        StepModel::MouseQuery => Query::MouseLocation,
        StepModel::CursorScreen { .. } => Query::XrandrCurrent,
        StepModel::XrandrFallback => Query::XrandrCurrent,
        StepModel::Sysfs => Query::SysfsModes,
        StepModel::Done { .. } => Query::Finished,
    }
}

/// The first state of a detection pass under `cfg`.
pub fn initial_step(cfg: &ScreenConfig) -> (s: DetectStep)
    ensures
        s@ == initial_spec(*cfg),
{
    if cfg.prefer_focused_screen {
        DetectStep::HyprlandFocused
    } else {
        DetectStep::WlrPrimary
    }
}

/// Names the command (or file read) whose output `state` is waiting for.
pub fn query(state: &DetectStep) -> (q: Query)
    ensures
        q == spec_query(state@),
{
    match state {
        DetectStep::HyprlandFocused => Query::HyprlandMonitors,
        DetectStep::SwayFocusedWorkspaces => Query::SwayWorkspaces,
        DetectStep::SwayFocusedOutputs { .. } => Query::SwayOutputs,
        DetectStep::WlrPrimary => Query::WlrRandr,
        DetectStep::HyprlandPrimary => Query::HyprlandMonitors,
        DetectStep::SwayPrimary => Query::SwayOutputs,
        DetectStep::MouseQuery => Query::MouseLocation,
        DetectStep::CursorScreen { .. } => Query::XrandrCurrent,
        DetectStep::XrandrFallback => Query::XrandrCurrent,
        DetectStep::Sysfs => Query::SysfsModes,
        DetectStep::Done { .. } => Query::Finished,
    }
}

fn next_after_focused(cfg: &ScreenConfig) -> (s: DetectStep)
    ensures
        s@ == after_focused_tier(*cfg),
{
    if cfg.prefer_focused_screen {
        DetectStep::WlrPrimary
    } else if cfg.allow_x11_fallback {
        DetectStep::MouseQuery
    } else {
        DetectStep::Sysfs
    }
}

fn next_after_primary(cfg: &ScreenConfig) -> (s: DetectStep)
    ensures
        s@ == after_primary_tier(*cfg),
{
    if cfg.prefer_focused_screen {
        if cfg.allow_x11_fallback {
            DetectStep::MouseQuery
        } else {
            DetectStep::Sysfs
        }
    } else {
        DetectStep::HyprlandFocused
    }
}

/// Feeds one query's outcome to the chain and steps it: a usable record
/// finishes detection, anything else falls through to the next probe.
pub fn advance(state: DetectStep, event: Option<&str>, cfg: &ScreenConfig) -> (next: DetectStep)
    ensures
        next@ == spec_advance(state@, event_view(event), *cfg),
{
    match state {
        DetectStep::HyprlandFocused => match event {
            Some(doc) => match parse_hyprctl_focused(doc) {
                Some(si) => DetectStep::Done { info: si },
                None => DetectStep::SwayFocusedWorkspaces,
            },
            None => DetectStep::SwayFocusedWorkspaces,
        },
        DetectStep::SwayFocusedWorkspaces => match event {
            Some(doc) => match focused_output_name(doc) {
                Some(nm) => DetectStep::SwayFocusedOutputs { name: nm },
                None => next_after_focused(cfg),
            },
            None => next_after_focused(cfg),
        },
        DetectStep::SwayFocusedOutputs { name } => match event {
            Some(doc) => match parse_sway_output_by_name(doc, name.as_str()) {
                Some(si) => DetectStep::Done { info: si },
                None => next_after_focused(cfg),
            },
            None => next_after_focused(cfg),
        },
        DetectStep::WlrPrimary => match event {
            Some(doc) => match parse_wlr_randr_output(doc) {
                Some(si) => DetectStep::Done { info: si },
                None => DetectStep::HyprlandPrimary,
            },
            None => DetectStep::HyprlandPrimary,
        },
        DetectStep::HyprlandPrimary => match event {
            Some(doc) => match parse_hyprctl_output(doc) {
                Some(si) => DetectStep::Done { info: si },
                None => DetectStep::SwayPrimary,
            },
            None => DetectStep::SwayPrimary,
        },
        DetectStep::SwayPrimary => match event {
            Some(doc) => match parse_swaymsg_output(doc) {
                Some(si) => DetectStep::Done { info: si },
                None => next_after_primary(cfg),
            },
            None => next_after_primary(cfg),
        },
        DetectStep::MouseQuery => match event {
            Some(doc) => match parse_mouse_location(doc) {
                Some(xy) => DetectStep::CursorScreen { x: xy.0, y: xy.1 },
                None => DetectStep::XrandrFallback,
            },
            None => DetectStep::XrandrFallback,
        },
        DetectStep::CursorScreen { x, y } => match event {
            Some(doc) => match screen_at_position(doc, x, y) {
                Some(si) => DetectStep::Done { info: si },
                None => DetectStep::Sysfs,
            },
            None => DetectStep::Sysfs,
        },
        DetectStep::XrandrFallback => match event {
            Some(doc) => match parse_xrandr_primary(doc) {
                Some(si) => DetectStep::Done { info: si },
                None => match parse_xrandr_any_connected(doc) {
                    Some(si) => DetectStep::Done { info: si },
                    None => DetectStep::Sysfs,
                },
            },
            None => DetectStep::Sysfs,
        },
        DetectStep::Sysfs => match event {
            Some(doc) => match parse_drm_modes(doc) {
                Some(si) => DetectStep::Done { info: si },
                None => DetectStep::Sysfs,
            },
            None => DetectStep::Done { info: ScreenInfo { width: 1920, height: 1080 } },
        },
        DetectStep::Done { info } => DetectStep::Done { info },
    }
}

/// The resolution a finished chain detected, and nothing for a chain still
/// under way.
pub fn result_of(state: &DetectStep) -> (r: Option<ScreenInfo>)
    ensures
        r == match state@ {
            StepModel::Done { width, height } => Some(ScreenInfo { width, height }),
            _ => None::<ScreenInfo>,
        },
{
    match state {
        DetectStep::Done { info } => Some(*info),
        _ => None,
    }
}

/// The chain after `n` steps in which every query came back empty.
pub open spec fn run_without_tools(s: StepModel, cfg: ScreenConfig, n: nat) -> StepModel
    decreases n,
{
    if n == 0 {
        s
    } else {
        run_without_tools(spec_advance(s, None, cfg), cfg, (n - 1) as nat)
    }
}

/// With every external tool absent and the kernel tree empty or unreadable
/// — every event `None` — the chain ends, under any configuration, at the
/// hard-coded default resolution.
pub proof fn lemma_default_when_all_absent(cfg: ScreenConfig)
    ensures
        run_without_tools(initial_spec(cfg), cfg, 10) == (StepModel::Done {
            width: 1920,
            height: 1080,
        }),
{
    reveal_with_fuel(run_without_tools, 11);
}

} // verus!

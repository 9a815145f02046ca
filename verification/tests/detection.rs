use quick_accent::config::{App, ScreenConfig, ToolConfig};
use quick_accent::detect::{advance, initial_step, query, result_of, DetectStep, Query};
use quick_accent::probes::{
    collect_rects, focused_output_name, parse_drm_modes, parse_hyprctl_focused,
    parse_hyprctl_output, parse_mouse_location, parse_sway_output_by_name, parse_swaymsg_output,
    parse_wlr_randr_output, parse_xrandr_any_connected, parse_xrandr_primary, screen_at_position,
    select_geometry,
};
use quick_accent::scan::Geometry;
use quick_accent::ScreenInfo;

const HYPR_MONITORS: &str = r#"[
{
    "id": 0,
    "name": "DP-1",
    "focused": true,
    "width": 3440,
    "height": 1440
}
{
    "id": 1,
    "name": "HDMI-A-1",
    "focused": false,
    "width": 1920,
    "height": 1080
}
]"#;

#[test]
fn hyprland_focused_monitor() {
    assert_eq!(
        parse_hyprctl_focused(HYPR_MONITORS),
        Some(ScreenInfo { width: 3440, height: 1440 })
    );
    assert_eq!(parse_hyprctl_focused("hyprctl: command not found"), None);
}

#[test]
fn hyprland_any_monitor() {
    assert_eq!(
        parse_hyprctl_output(HYPR_MONITORS),
        Some(ScreenInfo { width: 3440, height: 1440 })
    );
    // fields accumulate across lines and the scan stops at the first pair
    let doc = "\"width\": 800,\nnoise\n\"height\": 600,\n\"width\": 111,";
    assert_eq!(parse_hyprctl_output(doc), Some(ScreenInfo { width: 800, height: 600 }));
    assert_eq!(parse_hyprctl_output(""), None);
}

const SWAY_WORKSPACES: &str = r#"[
  {
    "num": 1,
    "name": "1",
    "output": "DP-1",
    "focused": true,
  }
]"#;

const SWAY_WORKSPACES_MULTI: &str = r#"[
  {
    "num": 1,
    "output": "HDMI-1",
    "focused": false
  }
  {
    "num": 2,
    "output": "DP-1",
    "focused": true
  }
]"#;

const SWAY_WORKSPACES_FOCUS_FIRST: &str = r#"[
  {
    "num": 1,
    "output": "HDMI-1",
    "focused": false
  }
  {
    "num": 2,
    "focused": true,
    "output": "DP-1"
  }
]"#;

const SWAY_OUTPUTS: &str = r#"[
  {
    "name": "HDMI-A-1",
    "modes": [
      {
        "current": false,
        "width": 1920,
        "height": 1080
      }
    ]
  },
  {
    "name": "DP-1",
    "modes": [
      {
        "width": 1024,
        "height": 768
      },
      {
        "current": true,
        "width": 2560,
        "height": 1440
      }
    ]
  }
]"#;

#[test]
fn sway_two_stage_lookup() {
    let name = focused_output_name(SWAY_WORKSPACES).expect("focused output");
    assert_eq!(name, "DP-1");
    assert_eq!(
        parse_sway_output_by_name(SWAY_OUTPUTS, &name),
        Some(ScreenInfo { width: 2560, height: 1440 })
    );
}

#[test]
fn sway_focused_workspace_owns_the_name() {
    // an earlier, unfocused workspace names HDMI-1; the name handed to the
    // second stage is the focused workspace's own output, whichever order
    // its fields come in
    let name = focused_output_name(SWAY_WORKSPACES_MULTI).expect("focused output");
    assert_eq!(name, "DP-1");
    let name2 = focused_output_name(SWAY_WORKSPACES_FOCUS_FIRST).expect("focused output");
    assert_eq!(name2, "DP-1");
}

#[test]
fn sway_lookup_fails_when_output_absent() {
    assert_eq!(parse_sway_output_by_name(SWAY_OUTPUTS, "DP-3"), None);
}

#[test]
fn sway_workspaces_without_focus_give_no_name() {
    let doc = "{\n\"output\": \"DP-1\",\n\"focused\": false,\n}";
    assert_eq!(focused_output_name(doc), None);
}

#[test]
fn sway_any_current_mode() {
    assert_eq!(
        parse_swaymsg_output(SWAY_OUTPUTS),
        Some(ScreenInfo { width: 2560, height: 1440 })
    );
}

#[test]
fn wlr_randr_current_mode() {
    let doc = "DP-1 \"Dell\"\n  Modes:\n  1920x1080 px, 60.000 Hz\n  3440x1440 px, 59.973 Hz (current)\n";
    assert_eq!(parse_wlr_randr_output(doc), Some(ScreenInfo { width: 3440, height: 1440 }));
    assert_eq!(parse_wlr_randr_output("no such tool"), None);
}

const XRANDR: &str = "Screen 0: minimum 320 x 200, current 3840 x 1080, maximum 16384 x 16384\nDP-1 connected primary 1920x1080+0+0 (normal left inverted) 527mm x 296mm\nHDMI-1 connected 1920x1080+1920+0 (normal left inverted) 527mm x 296mm\nDP-2 disconnected (normal left inverted)\n";

#[test]
fn xrandr_primary_and_any() {
    assert_eq!(parse_xrandr_primary(XRANDR), Some(ScreenInfo { width: 1920, height: 1080 }));
    let no_primary =
        "HDMI-1 connected 2560x1440+0+0 60mm x 40mm\nDP-2 disconnected\n";
    assert_eq!(parse_xrandr_primary(no_primary), None);
    assert_eq!(
        parse_xrandr_any_connected(no_primary),
        Some(ScreenInfo { width: 2560, height: 1440 })
    );
    assert_eq!(parse_xrandr_any_connected("DP-2 disconnected\n"), None);
}

#[test]
fn mouse_location_lines() {
    assert_eq!(parse_mouse_location("X=2000\nY=100\nSCREEN=0\nWINDOW=1234\n"), Some((2000, 100)));
    assert_eq!(parse_mouse_location("X=2000\nSCREEN=0\n"), None);
    assert_eq!(parse_mouse_location("X=abc\nY=100\n"), None);
    assert_eq!(parse_mouse_location("X=-5\nY=-7\n"), Some((-5, -7)));
}

#[test]
fn cursor_containment_takes_precedence() {
    // cursor (2000, 100) lies inside the second rectangle: it wins outright,
    // even though the first was seen earlier
    let rects = collect_rects(XRANDR);
    assert_eq!(
        rects,
        vec![
            Geometry { width: 1920, height: 1080, x: 0, y: 0 },
            Geometry { width: 1920, height: 1080, x: 1920, y: 0 },
        ]
    );
    let chosen = select_geometry(&rects, 2000, 100).expect("a rectangle");
    assert_eq!(chosen, Geometry { width: 1920, height: 1080, x: 1920, y: 0 });
    assert_eq!(
        screen_at_position(XRANDR, 2000, 100),
        Some(ScreenInfo { width: 1920, height: 1080 })
    );
}

#[test]
fn cursor_fallback_picks_minimal_distance() {
    // cursor outside both rectangles: summed gaps are 101 + 121 = 222 for
    // the first and 0 + 21 = 21 for the second, so the second is chosen
    let rects = vec![
        Geometry { width: 800, height: 600, x: 0, y: 0 },
        Geometry { width: 800, height: 700, x: 800, y: 0 },
    ];
    let chosen = select_geometry(&rects, 900, 720).expect("a rectangle");
    assert_eq!(chosen, Geometry { width: 800, height: 700, x: 800, y: 0 });
}

#[test]
fn cursor_fallback_tie_keeps_first() {
    // the cursor sits 21 rows below the first rectangle and 21 rows above
    // the second: an exact tie keeps the first-encountered rectangle
    let rects = vec![
        Geometry { width: 800, height: 600, x: 0, y: 0 },
        Geometry { width: 800, height: 600, x: 0, y: 641 },
    ];
    let chosen = select_geometry(&rects, 400, 620).expect("a rectangle");
    assert_eq!(chosen, Geometry { width: 800, height: 600, x: 0, y: 0 });
}

#[test]
fn cursor_with_no_rectangles() {
    assert_eq!(select_geometry(&Vec::new(), 0, 0), None);
    assert_eq!(screen_at_position("DP-2 disconnected\n", 0, 0), None);
}

#[test]
fn drm_modes_first_resolution() {
    assert_eq!(parse_drm_modes("1920x1080\n1280x1024\n"), Some(ScreenInfo { width: 1920, height: 1080 }));
    assert_eq!(parse_drm_modes(""), None);
    assert_eq!(parse_drm_modes("garbage\n640x480\n"), Some(ScreenInfo { width: 640, height: 480 }));
}

fn run_chain(cfg: &ScreenConfig, answer: impl Fn(Query) -> Option<String>) -> ScreenInfo {
    let mut step = initial_step(cfg);
    for _ in 0..32 {
        if let Some(info) = result_of(&step) {
            return info;
        }
        let q = query(&step);
        assert_ne!(q, Query::Finished);
        let event = answer(q);
        step = advance(step, event.as_deref(), cfg);
    }
    panic!("detection chain did not finish");
}

#[test]
fn all_tools_absent_yields_default() {
    // with every external tool absent and the sysfs tree unreadable, every
    // configuration ends at the hard-coded default
    for prefer in [true, false] {
        for x11 in [true, false] {
            let cfg = ScreenConfig {
                prefer_focused_screen: prefer,
                allow_x11_fallback: x11,
                debug_screen_detection: false,
            };
            let info = run_chain(&cfg, |_| None);
            assert_eq!(info, ScreenInfo { width: 1920, height: 1080 });
        }
    }
}

#[test]
fn chain_prefers_hyprland_focused() {
    let cfg = ScreenConfig::default();
    let info = run_chain(&cfg, |q| match q {
        Query::HyprlandMonitors => Some(HYPR_MONITORS.to_string()),
        _ => None,
    });
    assert_eq!(info, ScreenInfo { width: 3440, height: 1440 });
}

#[test]
fn chain_runs_sway_two_stage() {
    let cfg = ScreenConfig::default();
    let info = run_chain(&cfg, |q| match q {
        Query::SwayWorkspaces => Some(SWAY_WORKSPACES.to_string()),
        Query::SwayOutputs => Some(SWAY_OUTPUTS.to_string()),
        _ => None,
    });
    assert_eq!(info, ScreenInfo { width: 2560, height: 1440 });
    // with several workspaces listed, the focused one still picks the output
    let info2 = run_chain(&cfg, |q| match q {
        Query::SwayWorkspaces => Some(SWAY_WORKSPACES_MULTI.to_string()),
        Query::SwayOutputs => Some(SWAY_OUTPUTS.to_string()),
        _ => None,
    });
    assert_eq!(info2, ScreenInfo { width: 2560, height: 1440 });
}

#[test]
fn chain_falls_back_to_cursor_screen() {
    let cfg = ScreenConfig::default();
    let info = run_chain(&cfg, |q| match q {
        Query::MouseLocation => Some("X=2000\nY=100\n".to_string()),
        Query::XrandrCurrent => Some(XRANDR.to_string()),
        _ => None,
    });
    assert_eq!(info, ScreenInfo { width: 1920, height: 1080 });
}

#[test]
fn chain_skips_x11_when_disallowed() {
    let cfg = ScreenConfig {
        prefer_focused_screen: true,
        allow_x11_fallback: false,
        debug_screen_detection: false,
    };
    let mut asked_x11 = false;
    let mut step = initial_step(&cfg);
    for _ in 0..32 {
        if result_of(&step).is_some() {
            break;
        }
        let q = query(&step);
        if q == Query::MouseLocation || q == Query::XrandrCurrent {
            asked_x11 = true;
        }
        step = advance(step, None, &cfg);
    }
    assert!(!asked_x11);
}

#[test]
fn chain_primary_first_when_not_preferring_focused() {
    let cfg = ScreenConfig {
        prefer_focused_screen: false,
        allow_x11_fallback: true,
        debug_screen_detection: false,
    };
    let first = query(&initial_step(&cfg));
    assert_eq!(first, Query::WlrRandr);
}

#[test]
fn chain_sysfs_walks_files_until_one_parses() {
    let cfg = ScreenConfig::default();
    let mut served = vec!["no modes here".to_string(), "2880x1800\n1920x1200\n".to_string()];
    let mut step = initial_step(&cfg);
    let info = loop {
        if let Some(info) = result_of(&step) {
            break info;
        }
        let event: Option<String> = match query(&step) {
            Query::SysfsModes => {
                if served.is_empty() {
                    None
                } else {
                    Some(served.remove(0))
                }
            },
            _ => None,
        };
        step = advance(step, event.as_deref(), &cfg);
    };
    assert_eq!(info, ScreenInfo { width: 2880, height: 1800 });
}

#[test]
fn config_defaults() {
    let sc = ScreenConfig::default();
    assert!(sc.prefer_focused_screen);
    assert!(sc.allow_x11_fallback);
    assert!(sc.debug_screen_detection);
    let tc = ToolConfig::default();
    assert!(tc.test_key);
    let app = App::new(tc);
    assert!(app.config().test_key);
    assert_eq!(ScreenInfo::default(), ScreenInfo { width: 1920, height: 1080 });
}

#[test]
fn done_state_reports_result() {
    let cfg = ScreenConfig::default();
    let step = DetectStep::Done { info: ScreenInfo { width: 640, height: 480 } };
    assert_eq!(query(&step), Query::Finished);
    assert_eq!(result_of(&step), Some(ScreenInfo { width: 640, height: 480 }));
    let step2 = advance(step, None, &cfg);
    assert_eq!(result_of(&step2), Some(ScreenInfo { width: 640, height: 480 }));
}

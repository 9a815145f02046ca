//! Configuration consumed by the detection pass and the UI shell.

use vstd::prelude::*;

verus! {

/// Switches governing the screen-detection pass.
#[derive(Clone, Copy, Debug, PartialEq, Eq, Structural)]
pub struct ScreenConfig {
    /// Try the focused-screen probes before the primary-screen probes.
    pub prefer_focused_screen: bool,
    /// Permit the X11 probes when the Wayland ones fail.
    pub allow_x11_fallback: bool,
    /// Emit diagnostic output while detecting.
    pub debug_screen_detection: bool,
}

impl Default for ScreenConfig {
    fn default() -> (c: Self)
        ensures
            c.prefer_focused_screen,
            c.allow_x11_fallback,
            c.debug_screen_detection,
    {
        ScreenConfig {
            prefer_focused_screen: true,
            allow_x11_fallback: true,
            debug_screen_detection: true,
        }
    }
}

/// Content settings for the UI shell.
#[derive(Clone, Copy, Debug, PartialEq, Eq, Structural)]
pub struct ToolConfig {
    pub test_key: bool,
}

impl Default for ToolConfig {
    fn default() -> (c: Self)
        ensures
            c.test_key,
    {
        ToolConfig { test_key: true }
    }
}

/// The UI shell's state: the tool configuration it will display.
pub struct App {
    pub config: ToolConfig,
}

impl App {
    /// Wraps the tool configuration for the UI shell.
    pub fn new(config: ToolConfig) -> (a: App)
        ensures
            a.config == config,
    {
        App { config }
    }

    /// The configuration the shell was built around.
    pub fn config(&self) -> (c: ToolConfig)
        ensures
            c == self.config,
    {
        self.config
    }
}

} // verus!

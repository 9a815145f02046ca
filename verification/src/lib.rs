//! Display-resolution detection for Linux desktops.
//!
//! The library turns the raw text that compositor and display-server query
//! tools print (pseudo-JSON monitor lists, `WxH+X+Y` geometry tokens, sysfs
//! mode lists) into a screen resolution, and drives an ordered fallback chain
//! over those sources.  Running the external tools is left to the caller; the
//! scanning, selection and fallback decisions here are verified.

pub mod config;
pub mod detect;
pub mod probes;
pub mod scan;
pub mod text;

pub use config::App;
pub use config::ScreenConfig;
pub use config::ToolConfig;
pub use detect::DetectStep;
pub use detect::Query;
pub use detect::ScreenInfo;

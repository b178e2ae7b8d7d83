//! herdr's client-side logic, verified: the settings overlay's state machine,
//! the sidebar's layout and row rendering, agent logos and status glyphs, and
//! the theme generator's parsing, naming, ordering and output.
//!
//! Values that come from the terminal libraries (keys, colors, styles,
//! rectangles) are held here as plain data; the application converts them at
//! its edge.

pub mod agent;
pub mod agent_logo;
pub mod keys;
pub mod palette;
pub mod shell;
pub mod sidebar;
pub mod status;
pub mod text;
pub mod theme_file;
pub mod theme_output;
pub mod themes;

//! Line editing and tab completion for an interactive shell.

pub mod agent;
pub mod buffer_change;
pub mod comp_spec;
pub mod context;
pub mod files;
pub mod fuzzy;
pub mod lifecycle;
pub mod lists;
pub mod mouse;
pub mod number;
pub mod order;
pub mod paths;
pub mod readline;
pub mod resize;
pub mod search;
pub mod state;
pub mod suggestion;
pub mod system;
pub mod tab_complete;
pub mod text;
pub mod textbuffer;
pub mod words;

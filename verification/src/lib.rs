//! The logic of a tmux sidebar that shows coding agents and what they are up to.

pub mod clients;
pub mod clients_laws;
pub mod clock;
pub mod columns;
pub mod conf;
pub mod conf_files;
pub mod conf_laws;
pub mod detect;
pub mod detect_laws;
pub mod filter;
pub mod filter_laws;
pub mod frame;
pub mod frame_laws;
pub mod keys;
pub mod keys_laws;
pub mod list_laws;
pub mod mirror;
pub mod mirrors;
pub mod mirrors_laws;
pub mod overlay;
pub mod paint;
pub mod paint_laws;
pub mod pattern;
pub mod procs;
pub mod procs_laws;
pub mod rounds;
pub mod rounds_laws;
pub mod scan;
pub mod scan_laws;
pub mod settings_laws;
pub mod sidebar;
pub mod sidebar_laws;
pub mod text;
pub mod text_laws;
pub mod tmux;
pub mod tmux_laws;
pub mod unicode;
pub mod versions;
pub mod versions_laws;
pub mod view_laws;

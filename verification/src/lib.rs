//! Log-line triggers for EverQuest: GINA-style patterns, trigger storage and
//! the rules that decide what a matching line sets off.

pub mod command_template;
pub mod config;
pub mod common;
pub mod effects;
pub mod gina;
pub mod gina_conversion;
pub mod gina_fix;
pub mod gina_regex;
pub mod gina_tokens;
pub mod gina_xml;
pub mod keyed;
pub mod logs;
pub mod matchers;
pub mod references;
pub mod regex;
pub mod security;
pub mod serializable_regex;
pub mod state;
pub mod strmap;
pub mod template;
pub mod text;
pub mod timer_manager;
pub mod trigger_index;
pub mod triggers;

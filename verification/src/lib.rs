//! Verified core of a small set of terminal tools: a process-output
//! sanitizer and run history for a command menu, a schema DSL and form
//! widgets for a YAML editor, an inline-style to CSS-module converter,
//! a direnv project helper and a terminal font switcher.

pub mod text;
pub mod paths;
pub mod style;
pub mod sanitize;
pub mod run_record;
pub mod run_view;
pub mod yaml;
pub mod schema;
pub mod io_args;
pub mod dump;
pub mod status;
pub mod widgets;
pub mod menu;
pub mod menu_view;
pub mod scalar;
pub mod form;
pub mod demo;
pub mod jsx;
pub mod switcher;
pub mod project_env;

//! Verified core of a project-scaffolding tool.
//!
//! The library holds the logic that decides what a scaffolded project looks
//! like: the option axes and their dependency tables, the template
//! materialization plan, the `package.json` document model and its editing
//! steps, the placeholder patcher for build-config files, and the version
//! comparison for the upgrade notice.  All file-system, network, terminal and
//! subprocess work lives outside the library and hands it plain values.

pub mod cli;
pub mod comprehensive;
pub mod json;
pub mod json_laws;
pub mod json_read;
pub mod json_write;
pub mod pack;
pub mod package_json;
pub mod patch;
pub mod project;
pub mod registry;
pub mod scaffold;
pub mod state;
pub mod text;
pub mod ui;
pub mod version;

pub use version::compare_versions;
pub use version::get_string_length;
pub use version::is_chinese;

//! Which `.godot-vimrc` is read: the path set in the editor settings, else
//! the project's, else the user's.

use vstd::prelude::*;

verus! {

/// The project-level config file.
pub const PROJECT_PATH: &'static str = "res://.godot-vimrc";

/// The user-level config file.
pub const USER_PATH: &'static str = "user://.godot-vimrc";

/// The config file to read, and whether it belongs to the project.
pub struct ResolvedConfig {
    pub path: String,
    pub is_project_level: bool,
}

/// An explicit setting wins (not project-level); else the project's file
/// when it exists; else the user's file.
pub fn resolve(setting_override: &str, project_file_exists: bool) -> (r: ResolvedConfig)
    ensures
        setting_override@.len() > 0 ==> r.path@ == setting_override@ && !r.is_project_level,
        setting_override@.len() == 0 && project_file_exists ==> r.path@ == PROJECT_PATH@ && r.is_project_level,
        setting_override@.len() == 0 && !project_file_exists ==> r.path@ == USER_PATH@ && !r.is_project_level,
{
    if setting_override.unicode_len() > 0 {
        return ResolvedConfig { path: setting_override.to_owned(), is_project_level: false };
    }
    if project_file_exists {
        return ResolvedConfig { path: PROJECT_PATH.to_owned(), is_project_level: true };
    }
    ResolvedConfig { path: USER_PATH.to_owned(), is_project_level: false }
}

} // verus!

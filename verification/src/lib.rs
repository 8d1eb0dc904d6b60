//! Project-workflow logic for `mux`, a tool that scaffolds and manages C and C++
//! projects built with CMake presets: build profiles and preset names, project
//! layout checks, dependency naming, the CMake blocks that wire a vendored
//! dependency, the `mux.lock` file, new-project templates, and the plan of
//! steps behind each command.
pub mod cli;
pub mod cmake;
pub mod deps;
pub mod error;
pub mod layout;
pub mod lock;
pub mod names;
pub mod preset;
pub mod source;
pub mod template;
pub mod text;

pub use cli::{plan_command, Command, Step};
pub use cmake::{indent_cmake, render_dependency_cmake_block, strip_dependency_block};
pub use deps::{check_dependency_dir, finish_remove, plan_add, wire_dependency, AddPlan, Wiring};
pub use error::MuxError;
pub use layout::{ensure_c_project_root, ensure_project_root, ProjectFiles};
pub use lock::{parse_lock, render_lock, update_lock_add, update_lock_remove, LockEntry};
pub use names::{infer_repo_name, is_c_source, sanitize_name};
pub use preset::{
    check_executable, clean_target, executable_path, platform_prefix, preset_name, profile_name,
    project_kind_name, resolve_profiles, Platform, Profile, ProjectKind,
};
pub use source::{resolve_dependency_source, source_ref, DependencyKind, DependencySource, LocalProbe};
pub use template::{plan_init, InitPlan, TemplateFile};

use vstd::prelude::*;

verus! {

/// Every way in which a `mux` operation is refused.
#[derive(Debug, PartialEq, Eq)]
pub enum MuxError {
    /// `--release` and `--all` were given together.
    ConflictingProfileFlags,
    /// One of the two CMake files of a project is missing (the missing file is named).
    NotProjectRoot { missing: String },
    /// Neither the C nor the C++ pair of template sources is present.
    MissingTemplateSources,
    /// A dependency command was run in a project that is not a C template project.
    NotCProject { missing: String },
    /// The directory a dependency would be vendored into already exists.
    DependencyExists { dir: String },
    /// Nothing of the named dependency was found to remove.
    DependencyNotFound { name: String },
    /// A line of `mux.lock` (1-based) does not hold four tab-separated columns.
    LockFormat { line: usize },
    /// The directory a new project would be created in already exists.
    TargetExists { dir: String },
    /// The built executable was not found where the preset puts it.
    ExecutableMissing { path: String },
}

} // verus!

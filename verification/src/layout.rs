use vstd::prelude::*;
use crate::error::MuxError;

verus! {

/// Which of the template files are present in the current directory.
#[derive(Clone, Copy, Debug, PartialEq, Eq)]
pub struct ProjectFiles {
    /// `CMakeLists.txt`
    pub cmake_lists: bool,
    /// `CMakePresets.json`
    pub cmake_presets: bool,
    /// `src/main.c`
    pub main_c: bool,
    /// `tests/test_main.c`
    pub test_main_c: bool,
    /// `src/main.cpp`
    pub main_cpp: bool,
    /// `tests/test_main.cpp`
    pub test_main_cpp: bool,
}

pub open spec fn has_c_layout(f: ProjectFiles) -> bool {
    f.main_c && f.test_main_c
}

pub open spec fn has_cpp_layout(f: ProjectFiles) -> bool {
    f.main_cpp && f.test_main_cpp
}

/// A mux project has both CMake files and the C or the C++ pair of sources.
pub open spec fn is_project_root(f: ProjectFiles) -> bool {
    f.cmake_lists && f.cmake_presets && (has_c_layout(f) || has_cpp_layout(f))
}

/// Checks that the current directory is a mux project; the first missing CMake
/// file is named, then the template sources are checked.
pub fn ensure_project_root(files: &ProjectFiles) -> (res: Result<(), MuxError>)
    ensures
        res is Ok <==> is_project_root(*files),
        !files.cmake_lists ==> (res matches Err(MuxError::NotProjectRoot { missing }) && missing@ == "CMakeLists.txt"@),
        files.cmake_lists && !files.cmake_presets ==> (res matches Err(
            MuxError::NotProjectRoot { missing },
        ) && missing@ == "CMakePresets.json"@),
        files.cmake_lists && files.cmake_presets && !has_c_layout(*files) && !has_cpp_layout(
            *files,
        ) ==> res == Err::<(), MuxError>(MuxError::MissingTemplateSources),
{
    if !files.cmake_lists {
        return Err(MuxError::NotProjectRoot { missing: String::from_str("CMakeLists.txt") });
    }
    if !files.cmake_presets {
        return Err(MuxError::NotProjectRoot { missing: String::from_str("CMakePresets.json") });
    }
    let has_c = files.main_c && files.test_main_c;
    let has_cpp = files.main_cpp && files.test_main_cpp;
    if !has_c && !has_cpp {
        return Err(MuxError::MissingTemplateSources);
    }
    Ok(())
}

/// Checks that the current directory is a mux project made from the C template,
/// which dependency commands require. A directory that is no mux project at all
/// is refused as `ensure_project_root` refuses it.
pub fn ensure_c_project_root(files: &ProjectFiles) -> (res: Result<(), MuxError>)
    ensures
        res is Ok <==> is_project_root(*files) && has_c_layout(*files),
        !files.cmake_lists ==> (res matches Err(MuxError::NotProjectRoot { missing }) && missing@ == "CMakeLists.txt"@),
        files.cmake_lists && !files.cmake_presets ==> (res matches Err(
            MuxError::NotProjectRoot { missing },
        ) && missing@ == "CMakePresets.json"@),
        files.cmake_lists && files.cmake_presets && !has_c_layout(*files) && !has_cpp_layout(
            *files,
        ) ==> res == Err::<(), MuxError>(MuxError::MissingTemplateSources),
        is_project_root(*files) && !files.main_c ==> (res matches Err(
            MuxError::NotCProject { missing },
        ) && missing@ == "src/main.c"@),
        is_project_root(*files) && files.main_c && !files.test_main_c ==> (res matches Err(
            MuxError::NotCProject { missing },
        ) && missing@ == "tests/test_main.c"@),
{
    let r = ensure_project_root(files);
    if r.is_err() {
        return r;
    }
    if !files.main_c {
        return Err(MuxError::NotCProject { missing: String::from_str("src/main.c") });
    }
    if !files.test_main_c {
        return Err(MuxError::NotCProject { missing: String::from_str("tests/test_main.c") });
    }
    Ok(())
}

} // verus!

use vstd::prelude::*;
use crate::error::MuxError;
use crate::layout::{is_project_root, ProjectFiles};
use crate::preset::ProjectKind;

verus! {

/// A file of a new project: its path under the project root and its contents.
pub struct TemplateFile {
    pub path: String,
    pub contents: String,
}

/// What `mux init` creates: the project root, the directories under it, and the files.
pub struct InitPlan {
    pub root: String,
    pub dirs: Vec<String>,
    pub files: Vec<TemplateFile>,
}

pub open spec fn file_view(f: TemplateFile) -> (Seq<char>, Seq<char>) {
    (f.path@, f.contents@)
}

/// The directories of a template, under the project root.
pub open spec fn spec_template_dirs(kind: ProjectKind) -> Seq<Seq<char>> {
    match kind {
        ProjectKind::C => seq!["src"@, "tests"@, "lib/unity"@],
        ProjectKind::Cpp => seq!["src"@, "tests"@, "lib"@],
    }
}

/// The files of a template, under the project root, with their contents.
pub open spec fn spec_template_files(kind: ProjectKind) -> Seq<(Seq<char>, Seq<char>)> {
    seq![(".gitignore"@, GITIGNORE@), ("CMakePresets.json"@, CMAKE_PRESETS@)] + match kind {
        ProjectKind::C => seq![
            ("CMakeLists.txt"@, CMAKE_LISTS_C@),
            ("src/main.c"@, MAIN_C@),
            ("tests/test_main.c"@, TEST_MAIN_C@),
            ("lib/unity/unity.h"@, UNITY_H@),
            ("lib/unity/unity.c"@, UNITY_C@),
        ],
        ProjectKind::Cpp => seq![
            ("CMakeLists.txt"@, CMAKE_LISTS_CPP@),
            ("src/main.cpp"@, MAIN_CPP@),
            ("tests/test_main.cpp"@, TEST_MAIN_CPP@),
            ("lib/README.md"@, LIB_CPP_README@),
        ],
    }
}

fn file(path: &str, contents: &str) -> (f: TemplateFile)
    ensures
        file_view(f) == (path@, contents@),
{
    TemplateFile { path: String::from_str(path), contents: String::from_str(contents) }
}

/// Plans a new project in directory `name`; refused when that directory exists.
pub fn plan_init(name: &str, kind: ProjectKind, root_exists: bool) -> (res: Result<
    InitPlan,
    MuxError,
>)
    ensures
        res is Ok <==> !root_exists,
        root_exists ==> (res matches Err(MuxError::TargetExists { dir }) && dir@ == name@),
        res matches Ok(p) ==> {
            &&& p.root@ == name@
            &&& p.dirs@.map_values(|d: String| d@) == spec_template_dirs(kind)
            &&& p.files@.map_values(|f: TemplateFile| file_view(f)) == spec_template_files(kind)
        },
{
    if root_exists {
        return Err(MuxError::TargetExists { dir: String::from_str(name) });
    }
    let mut dirs: Vec<String> = Vec::new();
    dirs.push(String::from_str("src"));
    dirs.push(String::from_str("tests"));
    let mut files: Vec<TemplateFile> = Vec::new();
    files.push(file(".gitignore", GITIGNORE));
    files.push(file("CMakePresets.json", CMAKE_PRESETS));
    match kind {
        ProjectKind::C => {
            dirs.push(String::from_str("lib/unity"));
            files.push(file("CMakeLists.txt", CMAKE_LISTS_C));
            files.push(file("src/main.c", MAIN_C));
            files.push(file("tests/test_main.c", TEST_MAIN_C));
            files.push(file("lib/unity/unity.h", UNITY_H));
            files.push(file("lib/unity/unity.c", UNITY_C));
        },
        ProjectKind::Cpp => {
            dirs.push(String::from_str("lib"));
            files.push(file("CMakeLists.txt", CMAKE_LISTS_CPP));
            files.push(file("src/main.cpp", MAIN_CPP));
            files.push(file("tests/test_main.cpp", TEST_MAIN_CPP));
            files.push(file("lib/README.md", LIB_CPP_README));
        },
    }
    assert(dirs@.map_values(|d: String| d@) =~= spec_template_dirs(kind));
    assert(files@.map_values(|f: TemplateFile| file_view(f)) =~= spec_template_files(kind));
    Ok(InitPlan { root: String::from_str(name), dirs, files })
}

pub const GITIGNORE: &'static str = "out/\n";

pub const CMAKE_LISTS_C: &'static str = r#"cmake_minimum_required(VERSION 3.20)
project(mux_project C)

set(CMAKE_C_STANDARD 11)
set(CMAKE_C_STANDARD_REQUIRED ON)
set(CMAKE_C_EXTENSIONS OFF)

add_library(unity STATIC lib/unity/unity.c)
target_include_directories(unity PUBLIC lib/unity)

add_executable(main src/main.c)
target_link_libraries(main PRIVATE unity)

add_executable(test_main tests/test_main.c)
target_link_libraries(test_main PRIVATE unity)

enable_testing()
add_test(NAME unit_tests COMMAND test_main)
"#;

pub const CMAKE_LISTS_CPP: &'static str = r#"cmake_minimum_required(VERSION 3.20)
project(mux_project CXX)

set(CMAKE_CXX_STANDARD 17)
set(CMAKE_CXX_STANDARD_REQUIRED ON)
set(CMAKE_CXX_EXTENSIONS OFF)

include(FetchContent)
FetchContent_Declare(
  googletest
  URL https://github.com/google/googletest/archive/refs/tags/v1.14.0.zip
  DOWNLOAD_EXTRACT_TIMESTAMP TRUE
)
set(gtest_force_shared_crt ON CACHE BOOL "" FORCE)
FetchContent_MakeAvailable(googletest)

add_executable(main src/main.cpp)

enable_testing()
add_executable(test_main tests/test_main.cpp)
target_link_libraries(test_main PRIVATE GTest::gtest_main)
include(GoogleTest)
gtest_discover_tests(test_main)
"#;

pub const CMAKE_PRESETS: &'static str = r#"{
  "version": 6,
  "cmakeMinimumRequired": {
    "major": 3,
    "minor": 20,
    "patch": 0
  },
  "configurePresets": [
    {
      "name": "unix-debug",
      "displayName": "Unix Debug",
      "generator": "Ninja",
      "description": "Debug build preset for Linux/macOS",
      "binaryDir": "${sourceDir}/out/unix-debug",
      "cacheVariables": {
        "CMAKE_BUILD_TYPE": "Debug"
      },
      "condition": {
        "type": "anyOf",
        "conditions": [
          {
            "type": "equals",
            "lhs": "${hostSystemName}",
            "rhs": "Linux"
          },
          {
            "type": "equals",
            "lhs": "${hostSystemName}",
            "rhs": "Darwin"
          }
        ]
      }
    },
    {
      "name": "unix-release",
      "displayName": "Unix Release",
      "generator": "Ninja",
      "description": "Release build preset for Linux/macOS",
      "binaryDir": "${sourceDir}/out/unix-release",
      "cacheVariables": {
        "CMAKE_BUILD_TYPE": "Release"
      },
      "condition": {
        "type": "anyOf",
        "conditions": [
          {
            "type": "equals",
            "lhs": "${hostSystemName}",
            "rhs": "Linux"
          },
          {
            "type": "equals",
            "lhs": "${hostSystemName}",
            "rhs": "Darwin"
          }
        ]
      }
    },
    {
      "name": "windows-debug",
      "displayName": "Windows Debug",
      "generator": "Ninja",
      "description": "Debug build preset for Windows",
      "binaryDir": "${sourceDir}/out/windows-debug",
      "cacheVariables": {
        "CMAKE_BUILD_TYPE": "Debug"
      },
      "condition": {
        "type": "equals",
        "lhs": "${hostSystemName}",
        "rhs": "Windows"
      }
    },
    {
      "name": "windows-release",
      "displayName": "Windows Release",
      "generator": "Ninja",
      "description": "Release build preset for Windows",
      "binaryDir": "${sourceDir}/out/windows-release",
      "cacheVariables": {
        "CMAKE_BUILD_TYPE": "Release"
      },
      "condition": {
        "type": "equals",
        "lhs": "${hostSystemName}",
        "rhs": "Windows"
      }
    }
  ],
  "buildPresets": [
    {
      "name": "unix-debug",
      "configurePreset": "unix-debug"
    },
    {
      "name": "unix-release",
      "configurePreset": "unix-release"
    },
    {
      "name": "windows-debug",
      "configurePreset": "windows-debug"
    },
    {
      "name": "windows-release",
      "configurePreset": "windows-release"
    }
  ],
  "testPresets": [
    {
      "name": "unix-debug",
      "configurePreset": "unix-debug",
      "output": {
        "outputOnFailure": true
      }
    },
    {
      "name": "unix-release",
      "configurePreset": "unix-release",
      "output": {
        "outputOnFailure": true
      }
    },
    {
      "name": "windows-debug",
      "configurePreset": "windows-debug",
      "output": {
        "outputOnFailure": true
      }
    },
    {
      "name": "windows-release",
      "configurePreset": "windows-release",
      "output": {
        "outputOnFailure": true
      }
    }
  ]
}
"#;

pub const MAIN_C: &'static str = r#"#include <stdio.h>
#include "unity.h"

int main(void) {
    printf("Hello from your mux C starter project!\n");

    // Optional: Unity assertion available in main target too.
    TEST_ASSERT_EQUAL_INT(2, 1 + 1);

    return 0;
}
"#;

pub const MAIN_CPP: &'static str = r#"#include <iostream>

int main() {
    std::cout << "Hello from your mux C++ starter project!" << std::endl;
    return 0;
}
"#;

pub const TEST_MAIN_C: &'static str = r#"#include "unity.h"

void setUp(void) {}
void tearDown(void) {}

static void test_sample_addition(void) {
    TEST_ASSERT_EQUAL_INT(4, 2 + 2);
}

int main(void) {
    UNITY_BEGIN();
    RUN_TEST(test_sample_addition);
    return UNITY_END();
}
"#;

pub const TEST_MAIN_CPP: &'static str = r#"#include <gtest/gtest.h>

TEST(SampleTest, BasicMath) {
    EXPECT_EQ(4, 2 + 2);
}
"#;

pub const UNITY_H: &'static str = r#"#ifndef UNITY_H
#define UNITY_H

#ifdef __cplusplus
extern "C" {
#endif

int UnityBegin(const char *filename);
int UnityEnd(void);
void UnityDefaultTestRun(void (*test_func)(void), const char *name, int line_num);
void UnityAssertEqualInt(int expected, int actual, int line_num, const char *file);

#define UNITY_BEGIN() UnityBegin(__FILE__)
#define UNITY_END() UnityEnd()
#define RUN_TEST(func) UnityDefaultTestRun(func, #func, __LINE__)
#define TEST_ASSERT_EQUAL_INT(expected, actual) \
    UnityAssertEqualInt((expected), (actual), __LINE__, __FILE__)

#ifdef __cplusplus
}
#endif

#endif
"#;

pub const UNITY_C: &'static str = r#"#include "unity.h"

#include <stdio.h>

static int g_failures = 0;
static int g_tests_run = 0;

int UnityBegin(const char *filename) {
    g_failures = 0;
    g_tests_run = 0;
    printf("==== Unity test run: %s ====\n", filename);
    return 0;
}

int UnityEnd(void) {
    printf("==== Tests: %d, Failures: %d ====\n", g_tests_run, g_failures);
    return g_failures;
}

void UnityDefaultTestRun(void (*test_func)(void), const char *name, int line_num) {
    ++g_tests_run;
    printf("[RUN] %s (line %d)\n", name, line_num);
    test_func();
}

void UnityAssertEqualInt(int expected, int actual, int line_num, const char *file) {
    if (expected != actual) {
        ++g_failures;
        printf("[FAIL] %s:%d expected %d but was %d\n", file, line_num, expected, actual);
    }
}
"#;

pub const LIB_CPP_README: &'static str = r#"# lib/

This project uses GoogleTest for unit tests via CMake `FetchContent`.
No local library sources are required in `lib/` for the default C++ template.
"#;

/// The paths that a template writes.
pub open spec fn spec_template_paths(kind: ProjectKind) -> Seq<Seq<char>> {
    spec_template_files(kind).map_values(|f: (Seq<char>, Seq<char>)| f.0)
}

/// Which of the files the root check looks for are among the given paths.
pub open spec fn files_among(paths: Seq<Seq<char>>) -> ProjectFiles {
    ProjectFiles {
        cmake_lists: paths.contains("CMakeLists.txt"@),
        cmake_presets: paths.contains("CMakePresets.json"@),
        main_c: paths.contains("src/main.c"@),
        test_main_c: paths.contains("tests/test_main.c"@),
        main_cpp: paths.contains("src/main.cpp"@),
        test_main_cpp: paths.contains("tests/test_main.cpp"@),
    }
}

/// A freshly initialised project passes the project-root check: the files that
/// `init` writes, of either template, are the ones `ensure_project_root` asks for.
pub proof fn lemma_init_makes_project_root(kind: ProjectKind)
    ensures
        is_project_root(files_among(spec_template_paths(kind))),
{
    let paths = spec_template_paths(kind);
    assert(paths[1] == "CMakePresets.json"@);
    assert(paths[2] == "CMakeLists.txt"@);
    assert(paths[3] == match kind {
        ProjectKind::C => "src/main.c"@,
        ProjectKind::Cpp => "src/main.cpp"@,
    });
    assert(paths[4] == match kind {
        ProjectKind::C => "tests/test_main.c"@,
        ProjectKind::Cpp => "tests/test_main.cpp"@,
    });
}

/// Each file of a template holds its own contents: the program in `main`, the
/// test runner in `test_main`, the kind's `CMakeLists.txt`, the presets, the
/// ignore file, and (C) the unity sources or (C++) the `lib` note. No path is
/// written twice.
pub proof fn lemma_template_file_contents(kind: ProjectKind)
    ensures
        ({
            let fs = spec_template_files(kind);
            &&& forall|i: int, j: int| 0 <= i < j < fs.len() ==> fs[i].0 != fs[j].0
            &&& forall|i: int|
                0 <= i < fs.len() ==> {
                    &&& fs[i].0 == ".gitignore"@ ==> fs[i].1 == GITIGNORE@
                    &&& fs[i].0 == "CMakePresets.json"@ ==> fs[i].1 == CMAKE_PRESETS@
                    &&& fs[i].0 == "CMakeLists.txt"@ ==> fs[i].1 == match kind {
                        ProjectKind::C => CMAKE_LISTS_C@,
                        ProjectKind::Cpp => CMAKE_LISTS_CPP@,
                    }
                    &&& fs[i].0 == "src/main.c"@ ==> fs[i].1 == MAIN_C@
                    &&& fs[i].0 == "tests/test_main.c"@ ==> fs[i].1 == TEST_MAIN_C@
                    &&& fs[i].0 == "src/main.cpp"@ ==> fs[i].1 == MAIN_CPP@
                    &&& fs[i].0 == "tests/test_main.cpp"@ ==> fs[i].1 == TEST_MAIN_CPP@
                    &&& fs[i].0 == "lib/unity/unity.h"@ ==> fs[i].1 == UNITY_H@
                    &&& fs[i].0 == "lib/unity/unity.c"@ ==> fs[i].1 == UNITY_C@
                    &&& fs[i].0 == "lib/README.md"@ ==> fs[i].1 == LIB_CPP_README@
                }
            &&& exists|i: int| 0 <= i < fs.len() && fs[i].0 == (match kind {
                ProjectKind::C => "src/main.c"@,
                ProjectKind::Cpp => "src/main.cpp"@,
            })
            &&& exists|i: int| 0 <= i < fs.len() && fs[i].0 == (match kind {
                ProjectKind::C => "tests/test_main.c"@,
                ProjectKind::Cpp => "tests/test_main.cpp"@,
            })
        }),
{
    reveal_strlit(".gitignore");
    reveal_strlit("CMakePresets.json");
    reveal_strlit("CMakeLists.txt");
    reveal_strlit("src/main.c");
    reveal_strlit("tests/test_main.c");
    reveal_strlit("src/main.cpp");
    reveal_strlit("tests/test_main.cpp");
    reveal_strlit("lib/unity/unity.h");
    reveal_strlit("lib/unity/unity.c");
    reveal_strlit("lib/README.md");
    let fs = spec_template_files(kind);
    let ps = seq![
        ".gitignore"@,
        "CMakePresets.json"@,
        "CMakeLists.txt"@,
        "src/main.c"@,
        "tests/test_main.c"@,
        "src/main.cpp"@,
        "tests/test_main.cpp"@,
        "lib/unity/unity.h"@,
        "lib/unity/unity.c"@,
        "lib/README.md"@,
    ];
    assert(forall|a: int, b: int| 0 <= a < b < 10 ==> ps[a] != ps[b]) by {
        assert forall|a: int, b: int| 0 <= a < b < 10 implies ps[a] != ps[b] by {
            if ps[a] == ps[b] {
                assert(ps[a].len() == ps[b].len());
                assert(ps[a][0] == ps[b][0]);
                assert(ps[a][ps[a].len() - 1] == ps[b][ps[b].len() - 1]);
                assert(ps[a][ps[a].len() - 3] == ps[b][ps[b].len() - 3]);
            }
        }
    }
    match kind {
        ProjectKind::C => {
            assert(fs[0].0 == ps[0] && fs[1].0 == ps[1] && fs[2].0 == ps[2] && fs[3].0 == ps[3]
                && fs[4].0 == ps[4] && fs[5].0 == ps[7] && fs[6].0 == ps[8]);
        },
        ProjectKind::Cpp => {
            assert(fs[0].0 == ps[0] && fs[1].0 == ps[1] && fs[2].0 == ps[2] && fs[3].0 == ps[5]
                && fs[4].0 == ps[6] && fs[5].0 == ps[9]);
        },
    }
}

/// `path` is a file directly inside directory `dir`.
pub open spec fn directly_in(path: Seq<char>, dir: Seq<char>) -> bool {
    path.len() > dir.len() + 1int && path.take(dir.len() + 1int) == dir + "/"@ && !path.skip(
        dir.len() + 1int,
    ).contains('/')
}

/// Every file of a template lies at the project root or directly inside one of
/// the directories the plan creates, so writing the files needs no other
/// directory.
pub proof fn lemma_template_dirs_cover_files(kind: ProjectKind)
    ensures
        forall|i: int|
            0 <= i < spec_template_files(kind).len() ==> !(#[trigger] spec_template_files(
                kind,
            )[i]).0.contains('/') || exists|d: int|
                0 <= d < spec_template_dirs(kind).len() && directly_in(
                    spec_template_files(kind)[i].0,
                    #[trigger] spec_template_dirs(kind)[d],
                ),
{
    reveal_strlit("/");
    reveal_strlit(".gitignore");
    reveal_strlit("CMakePresets.json");
    reveal_strlit("CMakeLists.txt");
    reveal_strlit("src/main.c");
    reveal_strlit("tests/test_main.c");
    reveal_strlit("src/main.cpp");
    reveal_strlit("tests/test_main.cpp");
    reveal_strlit("lib/unity/unity.h");
    reveal_strlit("lib/unity/unity.c");
    reveal_strlit("lib/README.md");
    reveal_strlit("src");
    reveal_strlit("tests");
    reveal_strlit("lib/unity");
    reveal_strlit("lib");
    let fs = spec_template_files(kind);
    let ds = spec_template_dirs(kind);
    assert forall|i: int| 0 <= i < fs.len() implies !(#[trigger] fs[i]).0.contains('/') || exists|
        d: int,
    | 0 <= d < ds.len() && directly_in(fs[i].0, #[trigger] ds[d]) by {
        let p = fs[i].0;
        if i < 3 {
            if p.contains('/') {
                let k = choose|k: int| 0 <= k < p.len() && p[k] == '/';
                assert(p[k] != '/');
            }
        } else {
            let d: int = match kind {
                ProjectKind::C => if i == 3 { 0 } else if i == 4 { 1 } else { 2 },
                ProjectKind::Cpp => if i == 3 { 0 } else if i == 4 { 1 } else { 2 },
            };
            let dir = ds[d];
            let rest = p.skip(dir.len() + 1int);
            assert(p.take(dir.len() + 1int) =~= dir + "/"@);
            if rest.contains('/') {
                let k = choose|k: int| 0 <= k < rest.len() && rest[k] == '/';
                assert(rest[k] == p[dir.len() + 1 + k]);
            }
            assert(directly_in(p, ds[d]));
        }
    }
}

} // verus!

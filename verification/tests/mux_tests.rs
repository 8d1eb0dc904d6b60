use mux::{
    check_dependency_dir, check_executable, clean_target, ensure_c_project_root,
    ensure_project_root, executable_path, finish_remove, indent_cmake, infer_repo_name,
    is_c_source, parse_lock, plan_add, plan_command, plan_init, preset_name, profile_name,
    project_kind_name, render_dependency_cmake_block, render_lock, resolve_dependency_source,
    resolve_profiles, sanitize_name, source_ref, strip_dependency_block, update_lock_add,
    update_lock_remove, wire_dependency, Command, DependencyKind, LocalProbe, LockEntry,
    MuxError, Platform, Profile, ProjectFiles, ProjectKind, Step,
};

fn no_files() -> ProjectFiles {
    ProjectFiles {
        cmake_lists: false,
        cmake_presets: false,
        main_c: false,
        test_main_c: false,
        main_cpp: false,
        test_main_cpp: false,
    }
}

fn entry(name: &str, source: &str, target: &str, include_dir: &str) -> LockEntry {
    LockEntry {
        name: name.to_string(),
        source: source.to_string(),
        target: target.to_string(),
        include_dir: include_dir.to_string(),
    }
}

#[test]
fn resolve_profiles_variants() {
    assert_eq!(resolve_profiles(false, false).unwrap(), vec![Profile::Debug]);
    assert_eq!(resolve_profiles(true, false).unwrap(), vec![Profile::Release]);
    assert_eq!(
        resolve_profiles(false, true).unwrap(),
        vec![Profile::Debug, Profile::Release]
    );
    assert!(resolve_profiles(true, true).is_err());
}

#[test]
fn resolve_profiles_conflict_error() {
    assert_eq!(
        resolve_profiles(true, true),
        Err(MuxError::ConflictingProfileFlags)
    );
}

#[test]
fn ensure_project_root_detects_layouts() {
    // an empty directory
    assert!(ensure_project_root(&no_files()).is_err());
    // the C layout
    let c = ProjectFiles {
        cmake_lists: true,
        cmake_presets: true,
        main_c: true,
        test_main_c: true,
        ..no_files()
    };
    assert!(ensure_project_root(&c).is_ok());
    // the C++ layout
    let cpp = ProjectFiles {
        cmake_lists: true,
        cmake_presets: true,
        main_cpp: true,
        test_main_cpp: true,
        ..no_files()
    };
    assert!(ensure_project_root(&cpp).is_ok());
}

#[test]
fn ensure_project_root_names_missing_file() {
    assert_eq!(
        ensure_project_root(&no_files()),
        Err(MuxError::NotProjectRoot { missing: "CMakeLists.txt".to_string() })
    );
    let only_lists = ProjectFiles { cmake_lists: true, ..no_files() };
    assert_eq!(
        ensure_project_root(&only_lists),
        Err(MuxError::NotProjectRoot { missing: "CMakePresets.json".to_string() })
    );
    let no_sources = ProjectFiles { cmake_lists: true, cmake_presets: true, main_c: true, ..no_files() };
    assert_eq!(ensure_project_root(&no_sources), Err(MuxError::MissingTemplateSources));
}

#[test]
fn ensure_c_project_root_requires_c_sources() {
    let cpp = ProjectFiles {
        cmake_lists: true,
        cmake_presets: true,
        main_cpp: true,
        test_main_cpp: true,
        ..no_files()
    };
    assert_eq!(
        ensure_c_project_root(&cpp),
        Err(MuxError::NotCProject { missing: "src/main.c".to_string() })
    );
    let mixed = ProjectFiles { main_c: true, ..cpp };
    assert_eq!(
        ensure_c_project_root(&mixed),
        Err(MuxError::NotCProject { missing: "tests/test_main.c".to_string() })
    );
    let c = ProjectFiles { main_c: true, test_main_c: true, ..cpp };
    assert!(ensure_c_project_root(&c).is_ok());
    assert_eq!(ensure_c_project_root(&no_files()), ensure_project_root(&no_files()));
}

#[test]
fn init_project_c_and_cpp_layouts() {
    let c = plan_init("proj_c", ProjectKind::C, false).unwrap();
    assert_eq!(c.root, "proj_c");
    let c_paths: Vec<&str> = c.files.iter().map(|f| f.path.as_str()).collect();
    assert!(c_paths.contains(&"src/main.c"));
    assert!(c_paths.contains(&"tests/test_main.c"));
    assert!(c_paths.contains(&"lib/unity/unity.c"));
    assert!(c.dirs.contains(&"lib/unity".to_string()));

    let cpp = plan_init("proj_cpp", ProjectKind::Cpp, false).unwrap();
    let cpp_paths: Vec<&str> = cpp.files.iter().map(|f| f.path.as_str()).collect();
    assert!(cpp_paths.contains(&"src/main.cpp"));
    assert!(cpp_paths.contains(&"tests/test_main.cpp"));
}

#[test]
fn init_project_refuses_existing_dir() {
    assert_eq!(
        plan_init("proj", ProjectKind::C, true).err(),
        Some(MuxError::TargetExists { dir: "proj".to_string() })
    );
}

#[test]
fn init_template_contents() {
    let c = plan_init("p", ProjectKind::C, false).unwrap();
    assert_eq!(c.files[0].path, ".gitignore");
    assert_eq!(c.files[0].contents, "out/\n");
    assert_eq!(c.files[1].path, "CMakePresets.json");
    assert!(c.files[2].contents.starts_with("cmake_minimum_required(VERSION 3.20)\nproject(mux_project C)\n"));
    assert_eq!(c.files.len(), 7);
    let cpp = plan_init("p", ProjectKind::Cpp, false).unwrap();
    assert!(cpp.files[2].contents.contains("FetchContent_MakeAvailable(googletest)"));
    assert_eq!(cpp.files[5].path, "lib/README.md");
    assert_eq!(cpp.dirs, vec!["src".to_string(), "tests".to_string(), "lib".to_string()]);
}

#[test]
fn add_and_remove_dependency_local_path() {
    // `mux add /tmp/x/dep-lib` in a fresh C project, then `mux remove dep-lib`
    let project_cmake = plan_init("proj", ProjectKind::C, false).unwrap().files[2].contents.clone();
    let plan = plan_add(
        "/tmp/x/dep-lib",
        LocalProbe::Exists { file_name: Some("dep-lib".to_string()) },
        Platform::Unix,
    );
    assert_eq!(plan.dep_name, "dep-lib");
    assert_eq!(plan.dep_dir, "lib/dep-lib");
    assert!(check_dependency_dir(&plan, false).is_ok());
    // the directory holds dep.h and dep.c, no CMakeLists.txt
    let wiring = wire_dependency(&plan, None, false, is_c_source("dep.c"));
    let cmake = format!("{}{}", project_cmake, wiring.cmake_block);
    assert!(cmake.contains("# mux:dep begin dep-lib"));
    assert!(cmake.contains("target_link_libraries(main PRIVATE dep-lib)"));
    let mut entries = parse_lock("").unwrap();
    update_lock_add(&mut entries, wiring.lock_entry);
    let lock_text = render_lock(&entries);
    assert!(lock_text.contains("dep-lib\tpath:/tmp/x/dep-lib\tdep-lib\tlib/dep-lib\n"));

    let name = sanitize_name("dep-lib");
    let (stripped, removed) = strip_dependency_block(&cmake, &name);
    assert!(removed);
    assert!(!stripped.contains("# mux:dep begin dep-lib"));
    assert_eq!(stripped, format!("{}\n", project_cmake));
    let mut entries = parse_lock(&lock_text).unwrap();
    assert!(update_lock_remove(&mut entries, &name));
    assert!(entries.is_empty());
    assert!(finish_remove(&name, true, true, true).is_ok());
}

#[test]
fn clean_outputs_modes() {
    assert_eq!(clean_target(Platform::Unix, false, false).unwrap(), "out/unix-debug");
    assert_eq!(clean_target(Platform::Unix, false, true).unwrap(), "out/unix-release");
    assert_eq!(clean_target(Platform::Unix, true, false).unwrap(), "out");
    assert_eq!(clean_target(Platform::Windows, false, true).unwrap(), "out\\windows-release");
    assert_eq!(
        clean_target(Platform::Unix, true, true),
        Err(MuxError::ConflictingProfileFlags)
    );
}

#[test]
fn preset_and_names() {
    assert_eq!(preset_name(Platform::Unix, Profile::Debug), "unix-debug");
    assert_eq!(preset_name(Platform::Unix, Profile::Release), "unix-release");
    assert_eq!(preset_name(Platform::Windows, Profile::Debug), "windows-debug");
    assert_eq!(preset_name(Platform::Windows, Profile::Release), "windows-release");
    assert_eq!(profile_name(Profile::Release), "release");
    assert_eq!(project_kind_name(ProjectKind::C), "C");
    assert_eq!(project_kind_name(ProjectKind::Cpp), "C++");
}

#[test]
fn executable_paths() {
    assert_eq!(executable_path(Platform::Unix, Profile::Debug), "out/unix-debug/main");
    assert_eq!(
        executable_path(Platform::Windows, Profile::Release),
        "out\\windows-release\\main.exe"
    );
    assert_eq!(
        check_executable("out/unix-debug/main".to_string(), true),
        Ok("out/unix-debug/main".to_string())
    );
    assert_eq!(
        check_executable("out/unix-debug/main".to_string(), false),
        Err(MuxError::ExecutableMissing { path: "out/unix-debug/main".to_string() })
    );
}

#[test]
fn sanitize_name_cases() {
    assert_eq!(sanitize_name("dep-lib"), "dep-lib");
    assert_eq!(sanitize_name("my lib.v2"), "my_lib_v2");
    assert_eq!(sanitize_name("__x__"), "x");
    assert_eq!(sanitize_name("-_a_-"), "_a_");
    assert_eq!(sanitize_name("a_-"), "a_");
    assert_eq!(sanitize_name("***"), "dep");
    assert_eq!(sanitize_name(""), "dep");
    assert_eq!(sanitize_name("é"), "dep");
}

#[test]
fn sanitize_name_is_stable_on_clean_names() {
    for s in ["zlib", "cJSON", "my_lib-2", "a"] {
        assert_eq!(sanitize_name(s), s);
        assert_eq!(sanitize_name(&sanitize_name(s)), sanitize_name(s));
    }
}

#[test]
fn infer_repo_name_cases() {
    assert_eq!(infer_repo_name("https://github.com/user/repo.git"), "repo");
    assert_eq!(infer_repo_name("https://github.com/user/repo/"), "repo");
    assert_eq!(infer_repo_name("git@github.com:user/repo.git"), "repo");
    assert_eq!(infer_repo_name("git@host:repo.git"), "repo");
    assert_eq!(infer_repo_name("owner/repo"), "repo");
    assert_eq!(infer_repo_name("a.git.git"), "a");
    assert_eq!(infer_repo_name("https://host/"), "host");
    assert_eq!(infer_repo_name("x:"), "dep");
    assert_eq!(infer_repo_name(""), "dep");
}

#[test]
fn resolve_dependency_source_cases() {
    let s = resolve_dependency_source("owner/repo", LocalProbe::Missing);
    assert_eq!(s.name, "repo");
    assert_eq!(s.kind, DependencyKind::GitUrl("https://github.com/owner/repo.git".to_string()));

    let s = resolve_dependency_source("zlib", LocalProbe::Missing);
    assert_eq!(s.name, "zlib");
    assert_eq!(s.kind, DependencyKind::GitUrl("https://github.com/zlib/zlib.git".to_string()));

    let s = resolve_dependency_source("https://github.com/user/repo.git", LocalProbe::Missing);
    assert_eq!(s.name, "repo");
    assert_eq!(s.kind, DependencyKind::GitUrl("https://github.com/user/repo.git".to_string()));

    let s = resolve_dependency_source("git@github.com:me/thing.git", LocalProbe::Missing);
    assert_eq!(s.name, "thing");

    let s = resolve_dependency_source("../libs/foo", LocalProbe::Exists { file_name: Some("foo".to_string()) });
    assert_eq!(s.name, "foo");
    assert_eq!(s.kind, DependencyKind::LocalPath("../libs/foo".to_string()));

    let s = resolve_dependency_source("..", LocalProbe::Exists { file_name: None });
    assert_eq!(s.name, "dep");

    assert_eq!(source_ref(&DependencyKind::LocalPath("a/b".to_string())), "path:a/b");
    assert_eq!(source_ref(&DependencyKind::GitUrl("u".to_string())), "git:u");
}

#[test]
fn c_source_extensions() {
    assert!(is_c_source("dep.c"));
    assert!(is_c_source("DEP.C"));
    assert!(is_c_source("a.b.c"));
    assert!(!is_c_source(".c"));
    assert!(!is_c_source("c"));
    assert!(!is_c_source("dep.h"));
    assert!(!is_c_source("dep.cc"));
    assert!(!is_c_source("dep.c.h"));
}

#[test]
fn indent_cmake_lines() {
    assert_eq!(indent_cmake("a\nb\n", 2), "  a\n  b\n");
    assert_eq!(indent_cmake("a\r\nb", 3), "   a\n   b\n");
    assert_eq!(indent_cmake("", 2), "");
    assert_eq!(indent_cmake("\n\n", 1), " \n \n");
}

#[test]
fn render_block_header_only() {
    let block = render_dependency_cmake_block("inc", "lib/inc", "inc", false, false);
    assert_eq!(
        block,
        "\n# mux:dep begin inc\nif(NOT MUX_DEP_INC_ADDED)\nset(MUX_DEP_INC_ADDED ON)\n  target_include_directories(main PRIVATE lib/inc)\n  target_include_directories(test_main PRIVATE lib/inc)\nendif()\n# mux:dep end inc\n"
    );
}

#[test]
fn render_block_with_sources() {
    let block = render_dependency_cmake_block("dep-lib", "lib/dep-lib", "dep-lib", false, true);
    assert_eq!(
        block,
        "\n# mux:dep begin dep-lib\nif(NOT MUX_DEP_DEP-LIB_ADDED)\nset(MUX_DEP_DEP-LIB_ADDED ON)\n  file(GLOB_RECURSE MUX_DEP-LIB_SOURCES CONFIGURE_DEPENDS lib/dep-lib/*.c)\n  add_library(dep-lib STATIC ${MUX_DEP-LIB_SOURCES})\n  target_include_directories(dep-lib PUBLIC lib/dep-lib)\n  target_link_libraries(main PRIVATE dep-lib)\n  target_link_libraries(test_main PRIVATE dep-lib)\nendif()\n# mux:dep end dep-lib\n"
    );
}

#[test]
fn render_block_with_cmake() {
    let block = render_dependency_cmake_block("zlib", "lib/zlib", "zlibstatic", true, true);
    assert!(block.starts_with("\n# mux:dep begin zlib\nif(NOT MUX_DEP_ZLIB_ADDED)\n"));
    assert!(block.contains("  set(ZLIB_BUILD_TESTS OFF CACHE BOOL \"\" FORCE)\n"));
    assert!(block.contains("  set(ENABLE_ZLIB_TESTS OFF CACHE BOOL \"\" FORCE)\n"));
    assert!(block.contains("  add_subdirectory(lib/zlib)\n"));
    assert!(block.contains("  target_link_libraries(test_main PRIVATE zlibstatic)\n"));
    assert!(block.ends_with("endif()\n# mux:dep end zlib\n"));
    assert_eq!(block.lines().count(), 17);
}

#[test]
fn strip_keeps_other_blocks() {
    let a = render_dependency_cmake_block("a", "lib/a", "a", false, false);
    let b = render_dependency_cmake_block("b", "lib/b", "b", false, false);
    let text = format!("project(x)\n{}{}", a, b);
    let (out, removed) = strip_dependency_block(&text, "a");
    assert!(removed);
    assert_eq!(out, format!("project(x)\n\n{}", b));
    let (same, removed) = strip_dependency_block("x\r\ny", "zz");
    assert!(!removed);
    assert_eq!(same, "x\ny");
    // markers are matched on trimmed lines
    let (out, removed) = strip_dependency_block("keep\n  # mux:dep begin q  \ndrop\n\t# mux:dep end q\nkeep2\n", "q");
    assert!(removed);
    assert_eq!(out, "keep\nkeep2\n");
}

#[test]
fn strip_undoes_render_scenario() {
    let text = "cmake_minimum_required(VERSION 3.20)\nproject(p C)\n";
    let block = render_dependency_cmake_block("dep", "lib/dep", "dep", true, false);
    let (out, removed) = strip_dependency_block(&format!("{}{}", text, block), "dep");
    assert!(removed);
    assert_eq!(out, format!("{}\n", text));
    let no_newline = "project(p C)";
    let (out, _) = strip_dependency_block(&format!("{}{}", no_newline, block), "dep");
    assert_eq!(out, "project(p C)\n");
}

#[test]
fn lock_roundtrip_and_updates() {
    let mut entries = Vec::new();
    update_lock_add(&mut entries, entry("a", "git:u", "a", "lib/a"));
    update_lock_add(&mut entries, entry("b", "path:p", "bt", "lib/b"));
    update_lock_add(&mut entries, entry("a", "git:v", "a2", "lib/a"));
    assert_eq!(entries.len(), 2);
    assert_eq!(entries[0], entry("a", "git:v", "a2", "lib/a"));
    let text = render_lock(&entries);
    assert_eq!(
        text,
        "# mux lock v1\n# name\\tsource\\ttarget\\tinclude\na\tgit:v\ta2\tlib/a\nb\tpath:p\tbt\tlib/b\n"
    );
    assert_eq!(parse_lock(&text).unwrap(), entries);
    assert!(update_lock_remove(&mut entries, "a"));
    assert!(!update_lock_remove(&mut entries, "a"));
    assert_eq!(entries, vec![entry("b", "path:p", "bt", "lib/b")]);
}

#[test]
fn lock_format_errors() {
    assert_eq!(parse_lock("").unwrap(), vec![]);
    assert_eq!(parse_lock("# only comments\n\n").unwrap(), vec![]);
    assert_eq!(
        parse_lock("# header\na\tb\tc\td\nbad line\n"),
        Err(MuxError::LockFormat { line: 3 })
    );
    assert_eq!(parse_lock("a\tb\tc\n"), Err(MuxError::LockFormat { line: 1 }));
    assert_eq!(
        parse_lock("a\tb\tc\td\r\n").unwrap(),
        vec![entry("a", "b", "c", "d")]
    );
    assert_eq!(parse_lock("\t\t\t").unwrap(), vec![entry("", "", "", "")]);
}

#[test]
fn remove_reports_missing_dependency() {
    assert_eq!(
        finish_remove("ghost", false, false, false),
        Err(MuxError::DependencyNotFound { name: "ghost".to_string() })
    );
    assert!(finish_remove("x", false, false, true).is_ok());
}

#[test]
fn dependency_dir_must_be_new() {
    let plan = plan_add("owner/repo", LocalProbe::Missing, Platform::Unix);
    assert_eq!(plan.dep_dir, "lib/repo");
    assert_eq!(
        check_dependency_dir(&plan, true),
        Err(MuxError::DependencyExists { dir: "lib/repo".to_string() })
    );
}

#[test]
fn wire_dependency_with_target_override() {
    let plan = plan_add("owner/my.lib", LocalProbe::Missing, Platform::Windows);
    assert_eq!(plan.dep_dir, "lib\\my_lib");
    assert_eq!(plan.dep_name, "my_lib");
    let w = wire_dependency(&plan, Some("my target"), true, false);
    assert_eq!(w.lock_entry, entry("my_lib", "git:https://github.com/owner/my.lib.git", "my_target", "lib/my_lib"));
    assert!(w.cmake_block.contains("target_link_libraries(main PRIVATE my_target)"));
}

#[test]
fn command_plans() {
    assert_eq!(
        plan_command(Command::Build { release: true, all: true }),
        vec![Step::EnsureProjectRoot, Step::Fail(MuxError::ConflictingProfileFlags)]
    );
    assert_eq!(
        plan_command(Command::Test { release: false, all: true }),
        vec![
            Step::EnsureProjectRoot,
            Step::ConfigureAndBuild(Profile::Debug),
            Step::RunCtest(Profile::Debug),
            Step::ConfigureAndBuild(Profile::Release),
            Step::RunCtest(Profile::Release),
        ]
    );
    assert_eq!(
        plan_command(Command::Run { release: true }),
        vec![
            Step::EnsureProjectRoot,
            Step::ConfigureAndBuild(Profile::Release),
            Step::RunExecutable(Profile::Release),
        ]
    );
    assert_eq!(
        plan_command(Command::Init { project_name: "p".to_string(), lang: ProjectKind::C, cpp: true }),
        vec![Step::InitProject { name: "p".to_string(), kind: ProjectKind::Cpp }]
    );
    assert_eq!(
        plan_command(Command::Clean { all: true, release: false }),
        vec![Step::EnsureProjectRoot, Step::CleanOutputs { all: true, release: false }]
    );
    assert_eq!(
        plan_command(Command::Clean { all: true, release: true }),
        vec![Step::EnsureProjectRoot, Step::Fail(MuxError::ConflictingProfileFlags)]
    );
    assert_eq!(
        plan_command(Command::Build { release: false, all: false }),
        vec![Step::EnsureProjectRoot, Step::ConfigureAndBuild(Profile::Debug)]
    );
}

#[test]
fn strip_twice_finds_nothing() {
    let block = render_dependency_cmake_block("d", "lib/d", "d", false, true);
    let text = format!("a\n{}b\n{}", block, block);
    let (once, removed) = strip_dependency_block(&text, "d");
    assert!(removed);
    assert_eq!(once, "a\n\nb\n\n");
    let (twice, removed_again) = strip_dependency_block(&once, "d");
    assert!(!removed_again);
    assert_eq!(twice, once);
}

#[test]
fn strip_without_block_keeps_text() {
    let text = "cmake_minimum_required(VERSION 3.20)\n\n# mux:dep begin other\nx\n# mux:dep end other\n";
    assert_eq!(strip_dependency_block(text, "mine"), (text.to_string(), false));
    assert_eq!(strip_dependency_block("", "mine"), (String::new(), false));
    assert_eq!(strip_dependency_block("no newline", "mine"), ("no newline".to_string(), false));
}

#[test]
fn lock_add_twice_and_remove() {
    let base = || vec![entry("x", "git:x", "x", "lib/x")];
    let e = || entry("y", "path:y", "y", "lib/y");
    let mut once = base();
    update_lock_add(&mut once, e());
    let mut twice = base();
    update_lock_add(&mut twice, e());
    update_lock_add(&mut twice, e());
    assert_eq!(once, twice);
    update_lock_remove(&mut twice, "y");
    assert_eq!(twice, base());
}

#[test]
fn lock_remove_drops_every_match() {
    let mut entries = vec![
        entry("a", "1", "a", "lib/a"),
        entry("b", "2", "b", "lib/b"),
        entry("a", "3", "a", "lib/a"),
    ];
    assert!(update_lock_remove(&mut entries, "a"));
    assert_eq!(entries, vec![entry("b", "2", "b", "lib/b")]);
}

#[test]
fn init_unity_template_is_c() {
    let c = plan_init("p", ProjectKind::C, false).unwrap();
    let unity_h = &c.files[5];
    let unity_c = &c.files[6];
    assert_eq!(unity_h.path, "lib/unity/unity.h");
    assert_eq!(unity_c.path, "lib/unity/unity.c");
    assert!(unity_h.contents.contains("int UnityBegin(const char *filename);\n"));
    assert!(unity_h.contents.contains(
        "void UnityDefaultTestRun(void (*test_func)(void), const char *name, int line_num);\n"
    ));
    assert!(unity_h.contents.contains(
        "void UnityAssertEqualInt(int expected, int actual, int line_num, const char *file);\n"
    ));
    assert!(unity_c.contents.contains("int UnityBegin(const char *filename) {\n"));
    assert!(unity_c.contents.contains(
        "void UnityAssertEqualInt(int expected, int actual, int line_num, const char *file) {\n"
    ));
    for f in c.files.iter() {
        assert!(!f.contents.contains("pub "), "{}", f.path);
    }
}

#[test]
fn init_project_passes_root_check() {
    for kind in [ProjectKind::C, ProjectKind::Cpp] {
        let plan = plan_init("p", kind, false).unwrap();
        let has = |p: &str| plan.files.iter().any(|f| f.path == p);
        let files = ProjectFiles {
            cmake_lists: has("CMakeLists.txt"),
            cmake_presets: has("CMakePresets.json"),
            main_c: has("src/main.c"),
            test_main_c: has("tests/test_main.c"),
            main_cpp: has("src/main.cpp"),
            test_main_cpp: has("tests/test_main.cpp"),
        };
        assert!(ensure_project_root(&files).is_ok());
    }
    let c = plan_init("p", ProjectKind::C, false).unwrap();
    let has = |p: &str| c.files.iter().any(|f| f.path == p);
    let files = ProjectFiles {
        cmake_lists: has("CMakeLists.txt"),
        cmake_presets: has("CMakePresets.json"),
        main_c: has("src/main.c"),
        test_main_c: has("tests/test_main.c"),
        main_cpp: has("src/main.cpp"),
        test_main_cpp: has("tests/test_main.cpp"),
    };
    assert!(ensure_c_project_root(&files).is_ok());
}

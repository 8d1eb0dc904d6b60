use vstd::prelude::*;
use crate::cmake::{
    lemma_block_wires_dependency,
    lemma_strip_undoes_render, render_dependency_cmake_block, spec_render_block,
    spec_strip_block, strip_state,
};
use crate::error::MuxError;
use crate::preset::{path_separator, spec_separator, Platform};
use crate::lock::{lemma_lock_remove_undoes_add, spec_lock_add, spec_lock_remove, LockEntry, LockRow};
use crate::names::{
    is_clean_name, is_name_char, lemma_sanitize_clean, lemma_sanitize_shape, sanitize_name, spec_sanitize_name,
};
use crate::source::{
    resolve_dependency_source, source_ref, source_view, spec_resolve_source, spec_source_ref,
    DependencySource, LocalProbe, probe_view,
};
use crate::text::{is_ws, no_break, spec_lines};

verus! {

/// What `mux add` decided before touching the disk.
pub struct AddPlan {
    /// Where the dependency comes from, and its raw name.
    pub source: DependencySource,
    /// The sanitized name: the directory under `lib/` and the block's marker.
    pub dep_name: String,
    /// `lib` and the name, joined by the platform's separator.
    pub dep_dir: String,
}

/// What `mux add` appends to `CMakeLists.txt` and records in `mux.lock`.
pub struct Wiring {
    pub cmake_block: String,
    pub lock_entry: LockEntry,
}

/// The include path written into CMake and the lock file: `lib/<name>`.
pub open spec fn spec_include_path(dep: Seq<char>) -> Seq<char> {
    "lib/"@ + dep
}

/// The directory a dependency is vendored into: `lib`, the platform's
/// separator, the name.
pub open spec fn spec_dep_dir(platform: Platform, dep: Seq<char>) -> Seq<char> {
    "lib"@ + spec_separator(platform) + dep
}

/// The CMake target linked: the sanitized override, or the sanitized dependency name.
pub open spec fn spec_target_name(dep: Seq<char>, target_override: Option<Seq<char>>) -> Seq<char> {
    spec_sanitize_name(
        match target_override {
            Some(t) => t,
            None => dep,
        },
    )
}

/// Resolves the dependency spec and names its directory.
pub fn plan_add(spec: &str, local: LocalProbe, platform: Platform) -> (plan: AddPlan)
    ensures
        source_view(plan.source) == spec_resolve_source(spec@, probe_view(local)),
        plan.dep_name@ == spec_sanitize_name(source_view(plan.source).0),
        plan.dep_dir@ == spec_dep_dir(platform, plan.dep_name@),
{
    let source = resolve_dependency_source(spec, local);
    let dep_name = sanitize_name(source.name.as_str());
    let dep_dir = String::from_str("lib").concat(path_separator(platform)).concat(
        dep_name.as_str(),
    );
    AddPlan { source, dep_name, dep_dir }
}

/// A dependency is never vendored over an existing directory.
pub fn check_dependency_dir(plan: &AddPlan, dir_exists: bool) -> (res: Result<(), MuxError>)
    ensures
        res is Ok <==> !dir_exists,
        dir_exists ==> (res matches Err(MuxError::DependencyExists { dir }) && dir@
            == plan.dep_dir@),
{
    if dir_exists {
        return Err(MuxError::DependencyExists { dir: plan.dep_dir.clone() });
    }
    Ok(())
}

/// The CMake block and lock entry for a vendored dependency, given what its
/// directory holds.
pub fn wire_dependency(
    plan: &AddPlan,
    target_override: Option<&str>,
    has_cmake: bool,
    has_sources: bool,
) -> (w: Wiring)
    ensures
        w.cmake_block@ == spec_render_block(
            plan.dep_name@,
            spec_include_path(plan.dep_name@),
            spec_target_name(
                plan.dep_name@,
                match target_override {
                    Some(t) => Some(t@),
                    None => None,
                },
            ),
            has_cmake,
            has_sources,
        ),
        w.lock_entry@ == (
            plan.dep_name@,
            spec_source_ref(plan.source.kind),
            spec_target_name(
                plan.dep_name@,
                match target_override {
                    Some(t) => Some(t@),
                    None => None,
                },
            ),
            spec_include_path(plan.dep_name@),
        ),
{
    let include_path = String::from_str("lib/").concat(plan.dep_name.as_str());
    let target_name = match target_override {
        Some(t) => sanitize_name(t),
        None => sanitize_name(plan.dep_name.as_str()),
    };
    let cmake_block = render_dependency_cmake_block(
        plan.dep_name.as_str(),
        include_path.as_str(),
        target_name.as_str(),
        has_cmake,
        has_sources,
    );
    let lock_entry = LockEntry {
        name: plan.dep_name.clone(),
        source: source_ref(&plan.source.kind),
        target: target_name,
        include_dir: include_path,
    };
    Wiring { cmake_block, lock_entry }
}

/// `mux remove` fails only when it found nothing of the dependency to remove.
pub fn finish_remove(dep_name: &str, removed_dir: bool, removed_block: bool, removed_lock: bool) -> (res:
    Result<(), MuxError>)
    ensures
        res is Ok <==> removed_dir || removed_block || removed_lock,
        !(removed_dir || removed_block || removed_lock) ==> (res matches Err(
            MuxError::DependencyNotFound { name },
        ) && name@ == dep_name@),
{
    if !(removed_dir || removed_block || removed_lock) {
        return Err(MuxError::DependencyNotFound { name: String::from_str(dep_name) });
    }
    Ok(())
}

/// The source column of the lock entry, in terms of the source's abstract value.
pub open spec fn spec_source_column(is_git: bool, location: Seq<char>) -> Seq<char> {
    if is_git {
        "git:"@ + location
    } else {
        "path:"@ + location
    }
}

/// `mux remove <name>` undoes `mux add <spec>`: given the name that `add`
/// printed, stripping the CMake text gives back the text as it was with one
/// newline added, and the lock entries come back as removing that name alone
/// would leave them. It holds when the printed name is one that sanitizing
/// keeps (no `_` at either end), and the CMake text (with that newline) leaves
/// no block of the same dependency open.
pub proof fn lemma_remove_undoes_add(
    cmake: Seq<char>,
    rows: Seq<LockRow>,
    spec: Seq<char>,
    local: Option<Option<Seq<char>>>,
    target_override: Option<Seq<char>>,
    has_cmake: bool,
    has_sources: bool,
)
    requires
        ({
            let dep = spec_sanitize_name(spec_resolve_source(spec, local).0);
            dep[0] != '_' && dep.last() != '_' && !strip_state(cmake + "\n"@, dep).1
        }),
    ensures
        ({
            let src = spec_resolve_source(spec, local);
            let dep = spec_sanitize_name(src.0);
            let removed_name = spec_sanitize_name(dep);
            let tgt = spec_target_name(dep, target_override);
            let block = spec_render_block(dep, spec_include_path(dep), tgt, has_cmake, has_sources);
            let entry = (dep, spec_source_column(src.1, src.2), tgt, spec_include_path(dep));
            &&& removed_name == dep
            &&& spec_strip_block(cmake + block, removed_name) == (
                spec_strip_block(cmake + "\n"@, dep).0,
                true,
            )
            &&& spec_lock_remove(spec_lock_add(rows, entry), removed_name) == spec_lock_remove(
                rows,
                dep,
            )
        }),
{
    let src = spec_resolve_source(spec, local);
    let dep = spec_sanitize_name(src.0);
    let tgt = spec_target_name(dep, target_override);
    lemma_sanitize_shape(src.0);
    lemma_sanitize_clean(dep);
    let t_in = match target_override {
        Some(t) => t,
        None => dep,
    };
    lemma_sanitize_shape(t_in);
    lemma_name_no_break(dep);
    lemma_name_no_break(tgt);
    reveal_strlit("lib/");
    assert(no_break("lib/"@));
    crate::text::lemma_no_break_concat("lib/"@, dep);
    assert(!is_ws(dep.last()));
    lemma_strip_undoes_render(cmake, dep, spec_include_path(dep), tgt, has_cmake, has_sources);
    let entry = (dep, spec_source_column(src.1, src.2), tgt, spec_include_path(dep));
    lemma_lock_remove_undoes_add(rows, entry);
}

proof fn lemma_name_no_break(s: Seq<char>)
    requires
        forall|i: int| 0 <= i < s.len() ==> is_name_char(#[trigger] s[i]),
    ensures
        no_break(s),
{
    assert forall|i: int| 0 <= i < s.len() implies #[trigger] s[i] != '\n' && s[i] != '\r' by {
        assert(is_name_char(s[i]));
    }
}

} // verus!

verus! {

/// The include path written into CMake and `mux.lock` names the directory the
/// dependency was vendored into (on Unix it is that directory, `lib/<name>`),
/// and without `--target` the linked target is the dependency's own name.
pub proof fn lemma_wiring_names(dep: Seq<char>)
    requires
        is_clean_name(dep),
    ensures
        spec_include_path(dep) == "lib/"@ + dep,
        spec_dep_dir(Platform::Unix, dep) == spec_include_path(dep),
        spec_target_name(dep, None) == dep,
{
    reveal_strlit("lib/");
    reveal_strlit("lib");
    reveal_strlit("/");
    assert("lib"@ + "/"@ =~= "lib/"@);
    assert("lib"@ + "/"@ + dep =~= "lib/"@ + dep);
    lemma_sanitize_clean(dep);
}

/// The block that `mux add` appends and the entry it records agree: the
/// block gives `main` and `test_main` the entry's include path (unless the
/// dependency builds from sources into its own target), and links the entry's
/// target to both whenever there is one to link.
pub proof fn lemma_wiring_agrees(
    dep: Seq<char>,
    target_override: Option<Seq<char>>,
    has_cmake: bool,
    has_sources: bool,
)
    requires
        forall|i: int| 0 <= i < dep.len() ==> is_name_char(#[trigger] dep[i]),
    ensures
        ({
            let inc = spec_include_path(dep);
            let tgt = spec_target_name(dep, target_override);
            let ls = spec_lines(spec_render_block(dep, inc, tgt, has_cmake, has_sources));
            &&& (has_cmake || !has_sources) ==> ls.contains(
                "  target_include_directories(main PRIVATE "@ + inc + ")"@,
            ) && ls.contains("  target_include_directories(test_main PRIVATE "@ + inc + ")"@)
            &&& (has_cmake || has_sources) ==> ls.contains(
                "  target_link_libraries(main PRIVATE "@ + tgt + ")"@,
            ) && ls.contains("  target_link_libraries(test_main PRIVATE "@ + tgt + ")"@)
        }),
{
    let inc = spec_include_path(dep);
    let t_in = match target_override {
        Some(t) => t,
        None => dep,
    };
    let tgt = spec_target_name(dep, target_override);
    lemma_sanitize_shape(t_in);
    lemma_name_no_break(dep);
    lemma_name_no_break(tgt);
    reveal_strlit("lib/");
    assert(no_break("lib/"@));
    crate::text::lemma_no_break_concat("lib/"@, dep);
    lemma_block_wires_dependency(dep, inc, tgt, has_cmake, has_sources);
    let ls = spec_lines(spec_render_block(dep, inc, tgt, has_cmake, has_sources));
    if !has_cmake && !has_sources {
        assert(ls[4] == "  target_include_directories(main PRIVATE "@ + inc + ")"@);
        assert(ls[5] == "  target_include_directories(test_main PRIVATE "@ + inc + ")"@);
    }
}

} // verus!

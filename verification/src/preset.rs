use vstd::prelude::*;
use crate::error::MuxError;

verus! {

/// A build profile: each maps to one CMake preset per platform.
#[derive(Clone, Copy, Debug, PartialEq, Eq, Structural)]
pub enum Profile {
    Debug,
    Release,
}

/// The language of a project template.
#[derive(Clone, Copy, Debug, PartialEq, Eq, Structural)]
pub enum ProjectKind {
    C,
    Cpp,
}

/// The platform family whose presets are used.
#[derive(Clone, Copy, Debug, PartialEq, Eq, Structural)]
pub enum Platform {
    Unix,
    Windows,
}

/// The profiles that a build or test command covers.
pub open spec fn spec_profiles(release: bool, all: bool) -> Seq<Profile> {
    if all {
        seq![Profile::Debug, Profile::Release]
    } else if release {
        seq![Profile::Release]
    } else {
        seq![Profile::Debug]
    }
}

/// Resolves the `--release` / `--all` flags into the profiles to build or test.
/// The two flags exclude each other.
pub fn resolve_profiles(release: bool, all: bool) -> (res: Result<Vec<Profile>, MuxError>)
    ensures
        res is Err <==> release && all,
        res matches Err(e) ==> e == MuxError::ConflictingProfileFlags,
        res matches Ok(v) ==> v@ == spec_profiles(release, all),
{
    if release && all {
        return Err(MuxError::ConflictingProfileFlags);
    }
    if all {
        Ok(vec![Profile::Debug, Profile::Release])
    } else if release {
        Ok(vec![Profile::Release])
    } else {
        Ok(vec![Profile::Debug])
    }
}

pub open spec fn spec_profile_name(profile: Profile) -> Seq<char> {
    match profile {
        Profile::Debug => "debug"@,
        Profile::Release => "release"@,
    }
}

pub open spec fn spec_platform_prefix(platform: Platform) -> Seq<char> {
    match platform {
        Platform::Unix => "unix"@,
        Platform::Windows => "windows"@,
    }
}

pub open spec fn spec_project_kind_name(kind: ProjectKind) -> Seq<char> {
    match kind {
        ProjectKind::C => "C"@,
        ProjectKind::Cpp => "C++"@,
    }
}

/// `<platform>-<profile>`, the name shared by the configure, build and test presets.
pub open spec fn spec_preset_name(platform: Platform, profile: Profile) -> Seq<char> {
    spec_platform_prefix(platform) + "-"@ + spec_profile_name(profile)
}

/// The path of the built `main` executable, relative to the project root.
/// The separator the platform's paths display with.
pub open spec fn spec_separator(platform: Platform) -> Seq<char> {
    match platform {
        Platform::Unix => "/"@,
        Platform::Windows => "\\"@,
    }
}

/// The path of the built `main` executable, relative to the project root:
/// `out`, the preset, `main` (with `.exe` on Windows), joined by the platform's
/// separator.
pub open spec fn spec_executable_path(platform: Platform, profile: Profile) -> Seq<char> {
    let sep = spec_separator(platform);
    let base = "out"@ + sep + spec_preset_name(platform, profile) + sep + "main"@;
    match platform {
        Platform::Unix => base,
        Platform::Windows => base + ".exe"@,
    }
}

/// The directory that `clean` removes: all of `out`, or one preset's output.
pub open spec fn spec_clean_path(platform: Platform, all: bool, release: bool) -> Seq<char> {
    if all {
        "out"@
    } else {
        let profile = if release { Profile::Release } else { Profile::Debug };
        "out"@ + spec_separator(platform) + spec_preset_name(platform, profile)
    }
}

pub fn profile_name(profile: Profile) -> (s: &'static str)
    ensures
        s@ == spec_profile_name(profile),
{
    match profile {
        Profile::Debug => "debug",
        Profile::Release => "release",
    }
}

pub fn platform_prefix(platform: Platform) -> (s: &'static str)
    ensures
        s@ == spec_platform_prefix(platform),
{
    match platform {
        Platform::Unix => "unix",
        Platform::Windows => "windows",
    }
}

pub fn project_kind_name(kind: ProjectKind) -> (s: &'static str)
    ensures
        s@ == spec_project_kind_name(kind),
{
    match kind {
        ProjectKind::C => "C",
        ProjectKind::Cpp => "C++",
    }
}

pub fn preset_name(platform: Platform, profile: Profile) -> (s: String)
    ensures
        s@ == spec_preset_name(platform, profile),
{
    let mut s = String::from_str(platform_prefix(platform));
    s.append("-");
    s.append(profile_name(profile));
    s
}

pub fn path_separator(platform: Platform) -> (s: &'static str)
    ensures
        s@ == spec_separator(platform),
{
    match platform {
        Platform::Unix => "/",
        Platform::Windows => "\\",
    }
}

pub fn executable_path(platform: Platform, profile: Profile) -> (s: String)
    ensures
        s@ == spec_executable_path(platform, profile),
{
    let preset = preset_name(platform, profile);
    let sep = path_separator(platform);
    let mut s = String::from_str("out");
    s.append(sep);
    s.append(preset.as_str());
    s.append(sep);
    s.append("main");
    match platform {
        Platform::Unix => {},
        Platform::Windows => {
            s.append(".exe");
        },
    }
    s
}

/// The directory that `clean` removes. `--all` and `--release` exclude each
/// other, as they do for build and test.
pub fn clean_target(platform: Platform, all: bool, release: bool) -> (res: Result<String, MuxError>)
    ensures
        res is Err <==> all && release,
        res matches Err(e) ==> e == MuxError::ConflictingProfileFlags,
        res matches Ok(s) ==> s@ == spec_clean_path(platform, all, release),
{
    if all && release {
        return Err(MuxError::ConflictingProfileFlags);
    }
    if all {
        return Ok(String::from_str("out"));
    }
    let profile = if release { Profile::Release } else { Profile::Debug };
    let preset = preset_name(platform, profile);
    let mut s = String::from_str("out");
    s.append(path_separator(platform));
    s.append(preset.as_str());
    Ok(s)
}

/// The executable must exist after a build before it can be run.
pub fn check_executable(path: String, exists: bool) -> (res: Result<String, MuxError>)
    ensures
        res is Ok <==> exists,
        res matches Ok(p) ==> p@ == path@,
        !exists ==> (res matches Err(MuxError::ExecutableMissing { path: p }) && p@ == path@),
{
    if !exists {
        return Err(MuxError::ExecutableMissing { path });
    }
    Ok(path)
}

} // verus!

verus! {

/// The four presets are distinct, the executable lives in its preset's output
/// directory (the one `clean` removes for that profile), and `clean --all`
/// removes the whole `out` directory that holds them all.
pub proof fn lemma_output_layout(platform: Platform, profile: Profile)
    ensures
        forall|p2: Platform, q2: Profile|
            spec_preset_name(platform, profile) == #[trigger] spec_preset_name(p2, q2) ==> platform
                == p2 && profile == q2,
        ({
            let dir = spec_clean_path(platform, false, profile == Profile::Release);
            let exe = dir + spec_separator(platform) + "main"@;
            spec_executable_path(platform, profile) == match platform {
                Platform::Unix => exe,
                Platform::Windows => exe + ".exe"@,
            }
        }),
        spec_clean_path(platform, true, false) == "out"@,
        spec_clean_path(platform, false, profile == Profile::Release).take(4) == "out"@
            + spec_separator(platform),
{
    reveal_strlit("unix");
    reveal_strlit("windows");
    reveal_strlit("debug");
    reveal_strlit("release");
    reveal_strlit("-");
    reveal_strlit("out");
    reveal_strlit("/");
    reveal_strlit("\\");
    assert forall|p2: Platform, q2: Profile|
        spec_preset_name(platform, profile) == #[trigger] spec_preset_name(p2, q2) implies platform
        == p2 && profile == q2 by {
        let a = spec_preset_name(platform, profile);
        let b = spec_preset_name(p2, q2);
        assert(a.len() == b.len());
        assert(a[0] == b[0]);
        assert(a[a.len() - 1] == b[b.len() - 1]);
    }
    let profile2 = if profile == Profile::Release { Profile::Release } else { Profile::Debug };
    assert(profile2 == profile);
    let dir = spec_clean_path(platform, false, profile == Profile::Release);
    assert(dir.take(4) =~= "out"@ + spec_separator(platform));
}

} // verus!

verus! {

/// Debug is covered unless `--release` is given, release whenever `--release`
/// or `--all` is; no profile twice, and debug comes first.
pub proof fn lemma_profiles_chosen(release: bool, all: bool)
    requires
        !(release && all),
    ensures
        spec_profiles(release, all).contains(Profile::Debug) <==> !release,
        spec_profiles(release, all).contains(Profile::Release) <==> release || all,
        spec_profiles(release, all).len() == if all { 2int } else { 1int },
        spec_profiles(release, all).len() == 2 ==> spec_profiles(release, all)[0] == Profile::Debug
            && spec_profiles(release, all)[1] == Profile::Release,
{
    let s = spec_profiles(release, all);
    if all {
        assert(s[0] == Profile::Debug && s[1] == Profile::Release);
    } else if release {
        assert(s[0] == Profile::Release);
        assert(!s.contains(Profile::Debug)) by {
            if s.contains(Profile::Debug) {
                let i = choose|i: int| 0 <= i < s.len() && s[i] == Profile::Debug;
                assert(i == 0);
            }
        }
    } else {
        assert(s[0] == Profile::Debug);
        assert(!s.contains(Profile::Release)) by {
            if s.contains(Profile::Release) {
                let i = choose|i: int| 0 <= i < s.len() && s[i] == Profile::Release;
                assert(i == 0);
            }
        }
    }
}

} // verus!

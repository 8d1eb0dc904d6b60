use vstd::prelude::*;
use crate::error::MuxError;
use crate::preset::{resolve_profiles, spec_profiles, Profile, ProjectKind};

verus! {

/// A parsed `mux` command line.
#[derive(Debug, PartialEq, Eq)]
pub enum Command {
    /// `mux init <project_name> [--lang c|cpp] [--cpp]`
    Init { project_name: String, lang: ProjectKind, cpp: bool },
    /// `mux build [--release] [--all]`
    Build { release: bool, all: bool },
    /// `mux run [--release]`
    Run { release: bool },
    /// `mux test [--release] [--all]`
    Test { release: bool, all: bool },
    /// `mux clean [--all] [--release]`
    Clean { all: bool, release: bool },
    /// `mux add <lib> [--target <name>]`
    Add { lib: String, target: Option<String> },
    /// `mux remove <lib>`
    Remove { lib: String },
}

/// One piece of outside work a command performs, in order; `Fail` ends the
/// command with that error.
#[derive(Debug, PartialEq, Eq)]
pub enum Step {
    EnsureProjectRoot,
    InitProject { name: String, kind: ProjectKind },
    ConfigureAndBuild(Profile),
    RunCtest(Profile),
    RunExecutable(Profile),
    CleanOutputs { all: bool, release: bool },
    AddDependency { spec: String, target: Option<String> },
    RemoveDependency { lib: String },
    Fail(MuxError),
}

/// For each profile in turn: configure and build it, then (when testing) run its tests.
pub open spec fn profile_steps(ps: Seq<Profile>, with_tests: bool) -> Seq<Step>
    decreases ps.len(),
{
    if ps.len() == 0 {
        Seq::empty()
    } else {
        profile_steps(ps.drop_last(), with_tests) + if with_tests {
            seq![Step::ConfigureAndBuild(ps.last()), Step::RunCtest(ps.last())]
        } else {
            seq![Step::ConfigureAndBuild(ps.last())]
        }
    }
}

/// The steps of a build (or test) command: the project check, then the
/// profiles, or the refusal of `--release` together with `--all`.
pub open spec fn build_steps(release: bool, all: bool, with_tests: bool) -> Seq<Step> {
    seq![Step::EnsureProjectRoot] + if release && all {
        seq![Step::Fail(MuxError::ConflictingProfileFlags)]
    } else {
        profile_steps(spec_profiles(release, all), with_tests)
    }
}

pub open spec fn spec_plan(cmd: Command) -> Seq<Step> {
    match cmd {
        Command::Init { project_name, lang, cpp } => seq![
            Step::InitProject {
                name: project_name,
                kind: if cpp {
                    ProjectKind::Cpp
                } else {
                    lang
                },
            },
        ],
        Command::Build { release, all } => build_steps(release, all, false),
        Command::Run { release } => {
            let p = if release {
                Profile::Release
            } else {
                Profile::Debug
            };
            seq![Step::EnsureProjectRoot, Step::ConfigureAndBuild(p), Step::RunExecutable(p)]
        },
        Command::Test { release, all } => build_steps(release, all, true),
        Command::Clean { all, release } => seq![Step::EnsureProjectRoot] + if all && release {
            seq![Step::Fail(MuxError::ConflictingProfileFlags)]
        } else {
            seq![Step::CleanOutputs { all, release }]
        },
        Command::Add { lib, target } => seq![Step::AddDependency { spec: lib, target }],
        Command::Remove { lib } => seq![Step::RemoveDependency { lib }],
    }
}

fn push_profile_steps(steps: &mut Vec<Step>, ps: &Vec<Profile>, with_tests: bool)
    ensures
        final(steps)@ == old(steps)@ + profile_steps(ps@, with_tests),
{
    let ghost start = steps@;
    let mut i: usize = 0;
    while i < ps.len()
        invariant
            i <= ps.len(),
            steps@ == start + profile_steps(ps@.take(i as int), with_tests),
        decreases ps.len() - i,
    {
        let p = ps[i];
        let ghost before = steps@;
        steps.push(Step::ConfigureAndBuild(p));
        if with_tests {
            steps.push(Step::RunCtest(p));
        }
        proof {
            let t = ps@.take(i + 1);
            assert(t.drop_last() =~= ps@.take(i as int));
            assert(t.last() == p);
            if with_tests {
                assert(steps@ =~= before + seq![Step::ConfigureAndBuild(p), Step::RunCtest(p)]);
            } else {
                assert(steps@ =~= before + seq![Step::ConfigureAndBuild(p)]);
            }
            assert(steps@ =~= start + profile_steps(t, with_tests));
        }
        i = i + 1;
    }
    assert(ps@.take(ps.len() as int) =~= ps@);
}

fn plan_build(release: bool, all: bool, with_tests: bool) -> (steps: Vec<Step>)
    ensures
        steps@ == build_steps(release, all, with_tests),
{
    let mut steps: Vec<Step> = Vec::new();
    steps.push(Step::EnsureProjectRoot);
    match resolve_profiles(release, all) {
        Ok(ps) => {
            push_profile_steps(&mut steps, &ps, with_tests);
        },
        Err(e) => {
            steps.push(Step::Fail(e));
        },
    }
    assert(steps@ =~= build_steps(release, all, with_tests));
    steps
}

/// The steps that carry out a command, in the order the command performs them.
pub fn plan_command(cmd: Command) -> (steps: Vec<Step>)
    ensures
        steps@ == spec_plan(cmd),
{
    let ghost c = cmd;
    let mut steps: Vec<Step> = Vec::new();
    match cmd {
        Command::Init { project_name, lang, cpp } => {
            let kind = if cpp {
                ProjectKind::Cpp
            } else {
                lang
            };
            steps.push(Step::InitProject { name: project_name, kind });
        },
        Command::Build { release, all } => {
            steps = plan_build(release, all, false);
        },
        Command::Run { release } => {
            let p = if release {
                Profile::Release
            } else {
                Profile::Debug
            };
            steps.push(Step::EnsureProjectRoot);
            steps.push(Step::ConfigureAndBuild(p));
            steps.push(Step::RunExecutable(p));
        },
        Command::Test { release, all } => {
            steps = plan_build(release, all, true);
        },
        Command::Clean { all, release } => {
            steps.push(Step::EnsureProjectRoot);
            if all && release {
                steps.push(Step::Fail(MuxError::ConflictingProfileFlags));
            } else {
                steps.push(Step::CleanOutputs { all, release });
            }
        },
        Command::Add { lib, target } => {
            steps.push(Step::AddDependency { spec: lib, target });
        },
        Command::Remove { lib } => {
            steps.push(Step::RemoveDependency { lib });
        },
    }
    assert(steps@ =~= spec_plan(c));
    steps
}

/// Build, run, test and clean first check that they run inside a mux project.
pub proof fn lemma_project_commands_check_root(cmd: Command)
    requires
        cmd is Build || cmd is Run || cmd is Test || cmd is Clean,
    ensures
        spec_plan(cmd).len() >= 2,
        spec_plan(cmd)[0] == Step::EnsureProjectRoot,
{
}

/// With `--release` and `--all` together, build and test only check the project
/// and then refuse; nothing is configured, built or tested.
pub proof fn lemma_conflicting_flags_refused(release: bool, all: bool, with_tests: bool)
    requires
        release && all,
    ensures
        build_steps(release, all, with_tests) == seq![
            Step::EnsureProjectRoot,
            Step::Fail(MuxError::ConflictingProfileFlags),
        ],
{
    assert(build_steps(release, all, with_tests) =~= seq![
        Step::EnsureProjectRoot,
        Step::Fail(MuxError::ConflictingProfileFlags),
    ]);
}

/// With `--all` and `--release` together, clean only checks the project and
/// then refuses; nothing is removed.
pub proof fn lemma_clean_flags_refused(all: bool, release: bool)
    requires
        all && release,
    ensures
        spec_plan(Command::Clean { all, release }) == seq![
            Step::EnsureProjectRoot,
            Step::Fail(MuxError::ConflictingProfileFlags),
        ],
{
    assert(spec_plan(Command::Clean { all, release }) =~= seq![
        Step::EnsureProjectRoot,
        Step::Fail(MuxError::ConflictingProfileFlags),
    ]);
}

/// Every profile that a build or test command covers is configured and built,
/// in order, and a test command runs the tests of each right after building it.
pub proof fn lemma_profile_steps_shape(ps: Seq<Profile>, with_tests: bool)
    ensures
        profile_steps(ps, with_tests).len() == if with_tests {
            2 * ps.len() as int
        } else {
            ps.len() as int
        },
        forall|i: int|
            0 <= i < ps.len() ==> if with_tests {
                profile_steps(ps, with_tests)[2 * i] == Step::ConfigureAndBuild(#[trigger] ps[i])
                    && profile_steps(ps, with_tests)[2 * i + 1] == Step::RunCtest(ps[i])
            } else {
                profile_steps(ps, with_tests)[i] == Step::ConfigureAndBuild(#[trigger] ps[i])
            },
    decreases ps.len(),
{
    if ps.len() > 0 {
        let d = ps.drop_last();
        lemma_profile_steps_shape(d, with_tests);
        assert forall|i: int| 0 <= i < d.len() implies d[i] == ps[i] by {}
    }
}

} // verus!

verus! {

/// `init` creates one project under the given name: a C++ one with `--cpp`,
/// otherwise one of the `--lang` kind.
pub proof fn lemma_init_kind(project_name: String, lang: ProjectKind, cpp: bool)
    ensures
        spec_plan(Command::Init { project_name, lang, cpp }).len() == 1,
        spec_plan(Command::Init { project_name, lang, cpp })[0] matches Step::InitProject {
            name,
            kind,
        } && name == project_name && (cpp ==> kind == ProjectKind::Cpp) && (!cpp ==> kind
            == lang),
{
}

/// `run` builds the chosen profile and then runs that same profile's executable;
/// `add` and `remove` hand on their arguments untouched.
pub proof fn lemma_run_add_remove_steps(release: bool, lib: String, target: Option<String>)
    ensures
        ({
            let p = spec_plan(Command::Run { release });
            &&& p.len() == 3
            &&& p[1] matches Step::ConfigureAndBuild(b) && (b == Profile::Release <==> release)
            &&& p[2] matches Step::RunExecutable(r) && (r == Profile::Release <==> release)
        }),
        spec_plan(Command::Add { lib, target })[0] == (Step::AddDependency { spec: lib, target }),
        spec_plan(Command::Remove { lib }) == seq![Step::RemoveDependency { lib }],
{
}

} // verus!

verus! {

/// `clean` checks the project and then cleans with the flags it was given,
/// unless `--all` and `--release` are both given.
pub proof fn lemma_clean_steps(all: bool, release: bool)
    requires
        !(all && release),
    ensures
        spec_plan(Command::Clean { all, release }) == seq![
            Step::EnsureProjectRoot,
            Step::CleanOutputs { all, release },
        ],
{
    assert(spec_plan(Command::Clean { all, release }) =~= seq![
        Step::EnsureProjectRoot,
        Step::CleanOutputs { all, release },
    ]);
}

} // verus!

use vstd::prelude::*;
use crate::names::{infer_repo_name, spec_infer_repo_name};
use crate::text::chars_of;

verus! {

/// Where a dependency comes from.
#[derive(Debug, PartialEq, Eq)]
pub enum DependencyKind {
    /// A directory on disk, as the user wrote its path.
    LocalPath(String),
    /// A git repository to clone.
    GitUrl(String),
}

/// A resolved dependency: the name it is known by and where it comes from.
#[derive(Debug, PartialEq, Eq)]
pub struct DependencySource {
    pub name: String,
    pub kind: DependencyKind,
}

/// What probing the dependency spec as a local path found.
pub enum LocalProbe {
    /// No file or directory exists at that path.
    Missing,
    /// Something exists there; `file_name` is the path's final component, if any.
    Exists { file_name: Option<String> },
}

/// The abstract value of a dependency source: name, whether it is a git
/// repository, and its location (path or URL).
pub open spec fn source_view(s: DependencySource) -> (Seq<char>, bool, Seq<char>) {
    match s.kind {
        DependencyKind::LocalPath(p) => (s.name@, false, p@),
        DependencyKind::GitUrl(u) => (s.name@, true, u@),
    }
}

pub open spec fn contains_seq(hay: Seq<char>, needle: Seq<char>) -> bool {
    exists|i: int| 0 <= i <= hay.len() - needle.len() && #[trigger] hay.subrange(i, i + needle.len()) == needle
}

pub open spec fn starts_with_seq(s: Seq<char>, prefix: Seq<char>) -> bool {
    prefix.len() <= s.len() && s.take(prefix.len() as int) == prefix
}

/// How a dependency spec is understood: an existing local path; a URL or
/// `git@` location; a GitHub `owner/repo` shorthand; or a bare name `n`,
/// which stands for `https://github.com/n/n.git`.
pub open spec fn spec_resolve_source(spec: Seq<char>, local: Option<Option<Seq<char>>>) -> (
    Seq<char>,
    bool,
    Seq<char>,
) {
    match local {
        Some(file_name) => (
            match file_name {
                Some(n) => n,
                None => "dep"@,
            },
            false,
            spec,
        ),
        None => if contains_seq(spec, "://"@) || starts_with_seq(spec, "git@"@) {
            (spec_infer_repo_name(spec), true, spec)
        } else if spec.contains('/') {
            (spec_infer_repo_name(spec), true, "https://github.com/"@ + spec + ".git"@)
        } else {
            (spec, true, "https://github.com/"@ + spec + "/"@ + spec + ".git"@)
        },
    }
}

pub open spec fn probe_view(p: LocalProbe) -> Option<Option<Seq<char>>> {
    match p {
        LocalProbe::Missing => None,
        LocalProbe::Exists { file_name } => Some(
            match file_name {
                Some(n) => Some(n@),
                None => None,
            },
        ),
    }
}

fn contains_chars(hay: &Vec<char>, needle: &Vec<char>) -> (b: bool)
    ensures
        b == contains_seq(hay@, needle@),
{
    if needle.len() > hay.len() {
        return false;
    }
    let mut i: usize = 0;
    while i <= hay.len() - needle.len()
        invariant
            needle.len() <= hay.len(),
            i <= hay.len() - needle.len() + 1,
            forall|j: int|
                0 <= j < i ==> #[trigger] hay@.subrange(j, j + needle@.len()) != needle@,
        decreases hay.len() - i,
    {
        let mut k: usize = 0;
        let mut same = true;
        while k < needle.len()
            invariant
                i + needle.len() <= hay.len(),
                k <= needle.len(),
                same == forall|m: int| 0 <= m < k ==> hay@[i + m] == needle@[m],
            decreases needle.len() - k,
        {
            if hay[i + k] != needle[k] {
                same = false;
            }
            k = k + 1;
        }
        if same {
            assert(hay@.subrange(i as int, i + needle@.len()) =~= needle@);
            return true;
        }
        proof {
            let m = choose|m: int| 0 <= m < needle.len() && hay@[i + m] != needle@[m];
            assert(hay@.subrange(i as int, i + needle@.len())[m] == hay@[i + m]);
        }
        i = i + 1;
    }
    false
}

fn starts_with_chars(s: &Vec<char>, prefix: &Vec<char>) -> (b: bool)
    ensures
        b == starts_with_seq(s@, prefix@),
{
    if prefix.len() > s.len() {
        return false;
    }
    let mut k: usize = 0;
    while k < prefix.len()
        invariant
            prefix.len() <= s.len(),
            k <= prefix.len(),
            forall|m: int| 0 <= m < k ==> s@[m] == prefix@[m],
        decreases prefix.len() - k,
    {
        if s[k] != prefix[k] {
            assert(s@.take(prefix.len() as int)[k as int] == s@[k as int]);
            return false;
        }
        k = k + 1;
    }
    assert(s@.take(prefix.len() as int) =~= prefix@);
    true
}

fn contains_char(s: &Vec<char>, c: char) -> (b: bool)
    ensures
        b == s@.contains(c),
{
    let mut i: usize = 0;
    while i < s.len()
        invariant
            i <= s.len(),
            forall|j: int| 0 <= j < i ==> s@[j] != c,
        decreases s.len() - i,
    {
        if s[i] == c {
            return true;
        }
        i = i + 1;
    }
    false
}

/// Decides where a dependency comes from and what it is called.
pub fn resolve_dependency_source(spec: &str, local: LocalProbe) -> (res: DependencySource)
    ensures
        source_view(res) == spec_resolve_source(spec@, probe_view(local)),
{
    match local {
        LocalProbe::Exists { file_name } => {
            let name = match file_name {
                Some(n) => n,
                None => String::from_str("dep"),
            };
            return DependencySource {
                name,
                kind: DependencyKind::LocalPath(String::from_str(spec)),
            };
        },
        LocalProbe::Missing => {},
    }
    let v = chars_of(spec);
    let scheme = chars_of("://");
    let ssh = chars_of("git@");
    if contains_chars(&v, &scheme) || starts_with_chars(&v, &ssh) {
        return DependencySource {
            name: infer_repo_name(spec),
            kind: DependencyKind::GitUrl(String::from_str(spec)),
        };
    }
    if contains_char(&v, '/') {
        let url = String::from_str("https://github.com/").concat(spec).concat(".git");
        return DependencySource { name: infer_repo_name(spec), kind: DependencyKind::GitUrl(url) };
    }
    let url = String::from_str("https://github.com/").concat(spec).concat("/").concat(spec).concat(
        ".git",
    );
    DependencySource { name: String::from_str(spec), kind: DependencyKind::GitUrl(url) }
}

/// The location recorded in `mux.lock`: `path:<path>` or `git:<url>`.
pub open spec fn spec_source_ref(kind: DependencyKind) -> Seq<char> {
    match kind {
        DependencyKind::LocalPath(p) => "path:"@ + p@,
        DependencyKind::GitUrl(u) => "git:"@ + u@,
    }
}

pub fn source_ref(kind: &DependencyKind) -> (s: String)
    ensures
        s@ == spec_source_ref(*kind),
{
    match kind {
        DependencyKind::LocalPath(p) => String::from_str("path:").concat(p.as_str()),
        DependencyKind::GitUrl(u) => String::from_str("git:").concat(u.as_str()),
    }
}

} // verus!

verus! {

/// A spec that exists on disk is a local path: it keeps the spec as its path,
/// and is named by the path's final component (or `dep`).
pub proof fn lemma_local_spec(spec: Seq<char>, file_name: Option<Seq<char>>)
    ensures
        !spec_resolve_source(spec, Some(file_name)).1,
        spec_resolve_source(spec, Some(file_name)).2 == spec,
        file_name matches Some(n) ==> spec_resolve_source(spec, Some(file_name)).0 == n,
{
}

/// A URL (holding `://`) or an SSH location (starting with `git@`) that is not
/// on disk is cloned from exactly that location.
pub proof fn lemma_url_spec(spec: Seq<char>)
    requires
        contains_seq(spec, "://"@) || starts_with_seq(spec, "git@"@),
    ensures
        spec_resolve_source(spec, None).1,
        spec_resolve_source(spec, None).2 == spec,
        spec_resolve_source(spec, None).0 == spec_infer_repo_name(spec),
{
}

/// Other specs are GitHub locations: `owner/repo` clones
/// `https://github.com/owner/repo.git`, a bare `name` clones
/// `https://github.com/name/name.git` and is called `name`.
pub proof fn lemma_github_spec(spec: Seq<char>)
    requires
        !contains_seq(spec, "://"@),
        !starts_with_seq(spec, "git@"@),
    ensures
        spec_resolve_source(spec, None).1,
        spec.contains('/') ==> spec_resolve_source(spec, None).2 == "https://github.com/"@ + spec
            + ".git"@,
        !spec.contains('/') ==> spec_resolve_source(spec, None).2 == "https://github.com/"@ + spec
            + "/"@ + spec + ".git"@ && spec_resolve_source(spec, None).0 == spec,
{
}

} // verus!

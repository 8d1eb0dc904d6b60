use vstd::prelude::*;
use crate::text::{chars_of, string_of};

verus! {

/// Characters kept as they are in a dependency name.
pub open spec fn is_name_char(c: char) -> bool {
    ||| 'a' <= c <= 'z'
    ||| 'A' <= c <= 'Z'
    ||| '0' <= c <= '9'
    ||| c == '_'
    ||| c == '-'
}

pub open spec fn trim_char_start(s: Seq<char>, c: char) -> Seq<char>
    decreases s.len(),
{
    if s.len() > 0 && s[0] == c {
        trim_char_start(s.drop_first(), c)
    } else {
        s
    }
}

pub open spec fn trim_char_end(s: Seq<char>, c: char) -> Seq<char>
    decreases s.len(),
{
    if s.len() > 0 && s.last() == c {
        trim_char_end(s.drop_last(), c)
    } else {
        s
    }
}

/// The model of `str::trim_matches` with one character.
pub open spec fn trim_char(s: Seq<char>, c: char) -> Seq<char> {
    trim_char_end(trim_char_start(s, c), c)
}

/// Every character that is not a name character becomes `_`.
pub open spec fn map_name_chars(s: Seq<char>) -> Seq<char> {
    s.map_values(|c: char| if is_name_char(c) { c } else { '_' })
}

/// The directory and target name derived from user input: unsupported characters
/// become `_`, then `_` and then `-` are trimmed from both ends; `dep` if
/// nothing is left.
pub open spec fn spec_sanitize_name(input: Seq<char>) -> Seq<char> {
    let t = trim_char(trim_char(map_name_chars(input), '_'), '-');
    if t.len() == 0 {
        "dep"@
    } else {
        t
    }
}

/// Strips `pat` from the end of `s` as long as `s` ends with it.
pub open spec fn trim_suffix_all(s: Seq<char>, pat: Seq<char>) -> Seq<char>
    decreases s.len(),
{
    if pat.len() > 0 && s.len() >= pat.len() && s.skip(s.len() - pat.len()) == pat {
        trim_suffix_all(s.take(s.len() - pat.len()), pat)
    } else {
        s
    }
}

/// What follows the last `/` or `:` (all of `s` if there is none).
pub open spec fn last_segment(s: Seq<char>) -> Seq<char>
    decreases s.len(),
{
    if s.len() == 0 {
        s
    } else if s.last() == '/' || s.last() == ':' {
        Seq::<char>::empty()
    } else {
        last_segment(s.drop_last()).push(s.last())
    }
}

/// The repository name of a git location: `.git` and `/` are stripped from the end,
/// then the last `/`- or `:`-separated segment is taken; `dep` if it is empty.
pub open spec fn spec_infer_repo_name(spec: Seq<char>) -> Seq<char> {
    let seg = last_segment(trim_char_end(trim_suffix_all(spec, ".git"@), '/'));
    if seg.len() == 0 {
        "dep"@
    } else {
        seg
    }
}

/// Index of the last occurrence of `c`, or -1.
pub open spec fn last_index_of(s: Seq<char>, c: char) -> int
    decreases s.len(),
{
    if s.len() == 0 {
        -1
    } else if s.last() == c {
        s.len() - 1
    } else {
        last_index_of(s.drop_last(), c)
    }
}

/// The model of `Path::extension` on a file name: what follows the last `.`,
/// when that `.` is not the first character.
pub open spec fn spec_extension(name: Seq<char>) -> Option<Seq<char>> {
    let i = last_index_of(name, '.');
    if i <= 0 {
        None
    } else {
        Some(name.skip(i + 1))
    }
}

/// A C source file: its extension is `c`, in either case.
pub open spec fn spec_is_c_source(name: Seq<char>) -> bool {
    spec_extension(name) matches Some(e) && (e == "c"@ || e == "C"@)
}

// ---------------------------------------------------------------------------

pub proof fn lemma_trim_char_start_at(s: Seq<char>, c: char, k: int)
    requires
        0 <= k <= s.len(),
        forall|j: int| 0 <= j < k ==> #[trigger] s[j] == c,
        k == s.len() || s[k] != c,
    ensures
        trim_char_start(s, c) == s.skip(k),
    decreases k,
{
    if k == 0 {
        assert(s.skip(0) =~= s);
    } else {
        let t = s.drop_first();
        assert forall|j: int| 0 <= j < k - 1 implies #[trigger] t[j] == c by {
            assert(t[j] == s[j + 1]);
        }
        if k - 1 < t.len() {
            assert(t[k - 1] == s[k]);
        }
        lemma_trim_char_start_at(t, c, k - 1);
        assert(t.skip(k - 1) =~= s.skip(k));
    }
}

pub proof fn lemma_trim_char_end_at(s: Seq<char>, c: char, k: int)
    requires
        0 <= k <= s.len(),
        forall|j: int| k <= j < s.len() ==> #[trigger] s[j] == c,
        k == 0 || s[k - 1] != c,
    ensures
        trim_char_end(s, c) == s.take(k),
    decreases s.len() - k,
{
    if k == s.len() {
        assert(s.take(k) =~= s);
        if s.len() > 0 {
            assert(s.last() == s[k - 1]);
        }
    } else {
        let t = s.drop_last();
        assert(s[s.len() - 1] == c);
        assert forall|j: int| k <= j < t.len() implies #[trigger] t[j] == c by {
            assert(t[j] == s[j]);
        }
        if k > 0 {
            assert(t[k - 1] == s[k - 1]);
        }
        lemma_trim_char_end_at(t, c, k);
        assert(t.take(k) =~= s.take(k));
    }
}

/// Trims `c` from both ends of `v[lo..hi]`, returning the new bounds.
fn trim_bounds(v: &Vec<char>, lo: usize, hi: usize, c: char) -> (r: (usize, usize))
    requires
        lo <= hi <= v.len(),
    ensures
        lo <= r.0 <= r.1 <= hi,
        v@.subrange(r.0 as int, r.1 as int) == trim_char(v@.subrange(lo as int, hi as int), c),
{
    let ghost s = v@.subrange(lo as int, hi as int);
    let mut a = lo;
    while a < hi && v[a] == c
        invariant
            lo <= a <= hi <= v.len(),
            forall|j: int| lo <= j < a ==> #[trigger] v@[j] == c,
        decreases hi - a,
    {
        a = a + 1;
    }
    proof {
        assert forall|j: int| 0 <= j < a - lo implies #[trigger] s[j] == c by {
            assert(s[j] == v@[lo + j]);
        }
        if a < hi {
            assert(s[a - lo] == v@[a as int]);
        }
        lemma_trim_char_start_at(s, c, a - lo);
    }
    let mut b = hi;
    while b > a && v[b - 1] == c
        invariant
            lo <= a <= b <= hi <= v.len(),
            forall|j: int| b <= j < hi ==> #[trigger] v@[j] == c,
        decreases b,
    {
        b = b - 1;
    }
    proof {
        let u = s.skip(a - lo);
        assert(u =~= v@.subrange(a as int, hi as int));
        assert forall|j: int| b - a <= j < u.len() implies #[trigger] u[j] == c by {
            assert(u[j] == v@[a + j]);
        }
        if b > a {
            assert(u[b - a - 1] == v@[b - 1]);
        }
        lemma_trim_char_end_at(u, c, b - a);
        assert(u.take(b - a) =~= v@.subrange(a as int, b as int));
    }
    (a, b)
}

fn is_name_char_exec(c: char) -> (b: bool)
    ensures
        b == is_name_char(c),
{
    ('a' <= c && c <= 'z') || ('A' <= c && c <= 'Z') || ('0' <= c && c <= '9') || c == '_' || c
        == '-'
}

fn sub_chars(v: &Vec<char>, lo: usize, hi: usize) -> (r: Vec<char>)
    requires
        lo <= hi <= v.len(),
    ensures
        r@ == v@.subrange(lo as int, hi as int),
{
    let mut r: Vec<char> = Vec::new();
    let mut i = lo;
    while i < hi
        invariant
            lo <= i <= hi <= v.len(),
            r@ == v@.subrange(lo as int, i as int),
        decreases hi - i,
    {
        r.push(v[i]);
        i = i + 1;
        assert(r@ =~= v@.subrange(lo as int, i as int));
    }
    r
}

/// Turns user input into a dependency directory or CMake target name.
pub fn sanitize_name(input: &str) -> (res: String)
    ensures
        res@ == spec_sanitize_name(input@),
{
    let src = chars_of(input);
    let mut mapped: Vec<char> = Vec::new();
    let mut i: usize = 0;
    while i < src.len()
        invariant
            i <= src.len(),
            src@ == input@,
            mapped@ == map_name_chars(src@.take(i as int)),
        decreases src.len() - i,
    {
        let c = src[i];
        if is_name_char_exec(c) {
            mapped.push(c);
        } else {
            mapped.push('_');
        }
        i = i + 1;
        assert(mapped@ =~= map_name_chars(src@.take(i as int)));
    }
    assert(src@.take(src.len() as int) =~= src@);
    assert(mapped@.subrange(0, mapped.len() as int) =~= mapped@);
    let (a, b) = trim_bounds(&mapped, 0, mapped.len(), '_');
    let (c, d) = trim_bounds(&mapped, a, b, '-');
    if c == d {
        String::from_str("dep")
    } else {
        let kept = sub_chars(&mapped, c, d);
        string_of(&kept)
    }
}

fn ends_with_at(v: &Vec<char>, end: usize, pat: &Vec<char>) -> (b: bool)
    requires
        end <= v.len(),
    ensures
        b == (pat@.len() <= end && v@.take(end as int).skip(end - pat@.len()) == pat@),
{
    if pat.len() > end {
        return false;
    }
    let start = end - pat.len();
    let mut k: usize = 0;
    while k < pat.len()
        invariant
            k <= pat.len(),
            start + pat.len() == end <= v.len(),
            forall|j: int| 0 <= j < k ==> v@[start + j] == pat@[j],
        decreases pat.len() - k,
    {
        if v[start + k] != pat[k] {
            assert(v@.take(end as int).skip(start as int)[k as int] == v@[start + k]);
            return false;
        }
        k = k + 1;
    }
    assert(v@.take(end as int).skip(start as int) =~= pat@);
    true
}

/// Derives a repository name from a git URL or a GitHub `owner/repo` shorthand.
pub fn infer_repo_name(spec: &str) -> (res: String)
    ensures
        res@ == spec_infer_repo_name(spec@),
{
    let v = chars_of(spec);
    let suffix = chars_of(".git");
    proof {
        reveal_strlit(".git");
    }
    let mut end = v.len();
    assert(v@.take(end as int) =~= v@);
    while ends_with_at(&v, end, &suffix)
        invariant
            end <= v.len(),
            suffix@ == ".git"@,
            suffix@.len() > 0,
            trim_suffix_all(v@.take(end as int), ".git"@) == trim_suffix_all(v@, ".git"@),
        decreases end,
    {
        proof {
            let t = v@.take(end as int);
            assert(t.take(t.len() - suffix@.len()) =~= v@.take(end - suffix@.len()));
        }
        end = end - suffix.len();
    }
    let ghost stripped = v@.take(end as int);
    assert(stripped == trim_suffix_all(v@, ".git"@));
    assert(v@.subrange(0, end as int) =~= stripped);
    let e = trim_bounds_end(&v, end, '/');
    let ghost t = v@.take(e as int);
    let mut s = e;
    while s > 0 && v[s - 1] != '/' && v[s - 1] != ':'
        invariant
            s <= e <= v.len(),
            t == v@.take(e as int),
            last_segment(t) == last_segment(v@.take(s as int)) + v@.subrange(s as int, e as int),
        decreases s,
    {
        proof {
            let w = v@.take(s as int);
            assert(w.drop_last() =~= v@.take(s - 1));
            assert(w.last() == v@[s - 1]);
            assert(v@.subrange(s - 1, e as int) =~= seq![v@[s - 1]] + v@.subrange(s as int, e as int));
            assert(last_segment(w) == last_segment(w.drop_last()).push(w.last()));
            assert(last_segment(w.drop_last()).push(w.last()) + v@.subrange(s as int, e as int)
                =~= last_segment(w.drop_last()) + v@.subrange(s - 1, e as int));
        }
        s = s - 1;
    }
    proof {
        let w = v@.take(s as int);
        if s > 0 {
            assert(w.last() == v@[s - 1]);
        } else {
            assert(w =~= Seq::<char>::empty());
        }
        assert(last_segment(w) =~= Seq::<char>::empty());
        assert(last_segment(t) =~= v@.subrange(s as int, e as int));
    }
    if s == e {
        String::from_str("dep")
    } else {
        let seg = sub_chars(&v, s, e);
        string_of(&seg)
    }
}

/// Trims `c` from the end of `v[..end]`.
fn trim_bounds_end(v: &Vec<char>, end: usize, c: char) -> (r: usize)
    requires
        end <= v.len(),
    ensures
        r <= end,
        v@.take(r as int) == trim_char_end(v@.take(end as int), c),
{
    let mut b = end;
    while b > 0 && v[b - 1] == c
        invariant
            b <= end <= v.len(),
            forall|j: int| b <= j < end ==> #[trigger] v@[j] == c,
        decreases b,
    {
        b = b - 1;
    }
    proof {
        let u = v@.take(end as int);
        assert forall|j: int| b <= j < u.len() implies #[trigger] u[j] == c by {
            assert(u[j] == v@[j]);
        }
        if b > 0 {
            assert(u[b - 1] == v@[b - 1]);
        }
        lemma_trim_char_end_at(u, c, b as int);
        assert(u.take(b as int) =~= v@.take(b as int));
    }
    b
}

/// Whether a file name has the extension `c` (in either case), as the walk for
/// C sources decides it.
pub fn is_c_source(file_name: &str) -> (b: bool)
    ensures
        b == spec_is_c_source(file_name@),
{
    let v = chars_of(file_name);
    let n = v.len();
    proof {
        reveal_strlit("c");
        reveal_strlit("C");
    }
    if n >= 3 && v[n - 2] == '.' && (v[n - 1] == 'c' || v[n - 1] == 'C') {
        proof {
            let s = v@;
            assert(s.drop_last().last() == '.');
            assert(last_index_of(s, '.') == last_index_of(s.drop_last(), '.'));
            assert(s.skip(n - 1) =~= seq![s[n - 1]]);
            assert(last_index_of(s.drop_last(), '.') == n - 2);
            assert(last_index_of(s, '.') == n - 2);
            assert(spec_extension(s) == Some(seq![s[n - 1]]));
            if s[n - 1] == 'c' {
                assert(seq![s[n - 1]] =~= "c"@);
            } else {
                assert(seq![s[n - 1]] =~= "C"@);
            }
        }
        true
    } else {
        proof {
            let s = v@;
            lemma_last_index_of(s, '.');
            let i = last_index_of(s, '.');
            if i > 0 {
                let e = s.skip(i + 1);
                if e == "c"@ || e == "C"@ {
                    assert(e.len() == 1);
                    assert(i == n - 2);
                    assert(e[0] == s[n - 1]);
                }
            }
        }
        false
    }
}

pub proof fn lemma_last_index_of(s: Seq<char>, c: char)
    ensures
        -1 <= last_index_of(s, c) < s.len(),
        last_index_of(s, c) >= 0 ==> s[last_index_of(s, c)] == c,
    decreases s.len(),
{
    if s.len() > 0 && s.last() != c {
        lemma_last_index_of(s.drop_last(), c);
    }
}

} // verus!

verus! {

/// A name that sanitizing leaves unchanged: only name characters, and neither
/// end is `_` or `-`.
pub open spec fn is_clean_name(s: Seq<char>) -> bool {
    &&& s.len() > 0
    &&& forall|i: int| 0 <= i < s.len() ==> is_name_char(#[trigger] s[i])
    &&& s[0] != '_' && s[0] != '-'
    &&& s.last() != '_' && s.last() != '-'
}

proof fn lemma_trim_char_start_skip(s: Seq<char>, c: char) -> (k: int)
    ensures
        0 <= k <= s.len(),
        trim_char_start(s, c) == s.skip(k),
        k < s.len() ==> s[k] != c,
    decreases s.len(),
{
    if s.len() > 0 && s[0] == c {
        let k1 = lemma_trim_char_start_skip(s.drop_first(), c);
        assert(s.drop_first().skip(k1) =~= s.skip(k1 + 1));
        if k1 + 1 < s.len() {
            assert(s.drop_first()[k1] == s[k1 + 1]);
        }
        k1 + 1
    } else {
        assert(s.skip(0) =~= s);
        0
    }
}

proof fn lemma_trim_char_end_take(s: Seq<char>, c: char) -> (k: int)
    ensures
        0 <= k <= s.len(),
        trim_char_end(s, c) == s.take(k),
        k > 0 ==> s[k - 1] != c,
    decreases s.len(),
{
    if s.len() > 0 && s.last() == c {
        let k1 = lemma_trim_char_end_take(s.drop_last(), c);
        assert(s.drop_last().take(k1) =~= s.take(k1));
        if k1 > 0 {
            assert(s.drop_last()[k1 - 1] == s[k1 - 1]);
        }
        k1
    } else {
        assert(s.take(s.len() as int) =~= s);
        if s.len() > 0 {
            assert(s[s.len() - 1] == s.last());
        }
        s.len() as int
    }
}

/// Trimming a character keeps a contiguous part, and neither end of what is
/// left (if anything is) is that character.
proof fn lemma_trim_char_range(s: Seq<char>, c: char) -> (r: (int, int))
    ensures
        0 <= r.0 <= r.1 <= s.len(),
        trim_char(s, c) == s.subrange(r.0, r.1),
        r.0 < r.1 ==> s[r.0] != c && s[r.1 - 1] != c,
{
    let a = lemma_trim_char_start_skip(s, c);
    let u = s.skip(a);
    let b = lemma_trim_char_end_take(u, c);
    assert(u.take(b) =~= s.subrange(a, a + b));
    if b > 0 {
        assert(u[0] == s[a]);
        assert(u[b - 1] == s[a + b - 1]);
    }
    (a, a + b)
}

/// Sanitized names are never empty, hold only name characters, and neither
/// begin nor end with `-`.
pub proof fn lemma_sanitize_shape(input: Seq<char>)
    ensures
        spec_sanitize_name(input).len() > 0,
        forall|i: int|
            0 <= i < spec_sanitize_name(input).len() ==> is_name_char(
                #[trigger] spec_sanitize_name(input)[i],
            ),
        spec_sanitize_name(input)[0] != '-',
        spec_sanitize_name(input).last() != '-',
{
    let m = map_name_chars(input);
    let (a, b) = lemma_trim_char_range(m, '_');
    let t1 = trim_char(m, '_');
    let (c, d) = lemma_trim_char_range(t1, '-');
    let t2 = trim_char(t1, '-');
    if t2.len() == 0 {
        reveal_strlit("dep");
    } else {
        assert forall|i: int| 0 <= i < t2.len() implies is_name_char(#[trigger] t2[i]) by {
            assert(t2[i] == t1[c + i]);
            assert(t1[c + i] == m[a + c + i]);
        }
        assert(t2[0] == t1[c]);
        assert(t2.last() == t1[d - 1]);
    }
}

/// Sanitizing a clean name gives it back unchanged.
pub proof fn lemma_sanitize_clean(s: Seq<char>)
    requires
        is_clean_name(s),
    ensures
        spec_sanitize_name(s) == s,
{
    let m = map_name_chars(s);
    assert(m =~= s);
    lemma_trim_char_start_at(s, '_', 0);
    lemma_trim_char_end_at(s.skip(0), '_', s.len() as int);
    assert(s.skip(0) =~= s);
    assert(s.take(s.len() as int) =~= s);
    assert(trim_char(s, '_') == s);
    lemma_trim_char_start_at(s, '-', 0);
    lemma_trim_char_end_at(s, '-', s.len() as int);
    assert(trim_char(s, '-') == s);
}

/// Sanitizing is stable on its results whenever the first sanitizing left no
/// `_` at either end.
pub proof fn lemma_sanitize_stable(input: Seq<char>)
    requires
        spec_sanitize_name(input)[0] != '_',
        spec_sanitize_name(input).last() != '_',
    ensures
        spec_sanitize_name(spec_sanitize_name(input)) == spec_sanitize_name(input),
{
    lemma_sanitize_shape(input);
    lemma_sanitize_clean(spec_sanitize_name(input));
}

/// A character that sanitizing may cut off an end: one that became `_`, or `-`.
pub open spec fn is_cut_char(c: char) -> bool {
    !is_name_char(c) || c == '_' || c == '-'
}

/// `out` is the stretch `input[a..b]` with every name character kept and every
/// other character turned into `_`, and all of the input outside the stretch
/// is made of characters that may be cut off.
pub open spec fn kept_stretch(input: Seq<char>, out: Seq<char>, a: int, b: int) -> bool {
    &&& 0 <= a < b <= input.len()
    &&& out.len() == b - a
    &&& forall|k: int|
        0 <= k < out.len() ==> #[trigger] out[k] == if is_name_char(input[a + k]) {
            input[a + k]
        } else {
            '_'
        }
    &&& forall|j: int| 0 <= j < a ==> is_cut_char(#[trigger] input[j])
    &&& forall|j: int| b <= j < input.len() ==> is_cut_char(#[trigger] input[j])
}

/// What sanitizing does, position by position: the result is a stretch of the
/// input in which every name character is kept and every other character
/// became `_`, and what was cut off on either side consisted of characters
/// that became `_` or `-`; or, when nothing is left, the result is `dep` and
/// the whole input consisted of such characters.
pub proof fn lemma_sanitize_positions(input: Seq<char>)
    ensures
        ({
            let out = spec_sanitize_name(input);
            ||| out == "dep"@ && forall|j: int| 0 <= j < input.len() ==> is_cut_char(#[trigger] input[j])
            ||| exists|a: int, b: int| #[trigger] kept_stretch(input, out, a, b)
        }),
{
    let m = map_name_chars(input);
    lemma_trim_char_prefix_all(m, '_');
    let k1 = m.len() - trim_char_start(m, '_').len();
    let u = m.skip(k1);
    lemma_trim_char_suffix_all(u, '_');
    let e1 = trim_char_end(u, '_').len() as int;
    let t1 = trim_char(m, '_');
    assert(t1 == u.take(e1));
    lemma_trim_char_prefix_all(t1, '-');
    let k2 = t1.len() - trim_char_start(t1, '-').len();
    let w = t1.skip(k2);
    lemma_trim_char_suffix_all(w, '-');
    let e2 = trim_char_end(w, '-').len() as int;
    let t2 = trim_char(t1, '-');
    assert(t2 == w.take(e2));
    assert forall|j: int| 0 <= j < input.len() && (j < k1 + k2 || j >= k1 + k2 + e2) implies is_cut_char(
        #[trigger] input[j],
    ) by {
        assert(m[j] == if is_name_char(input[j]) { input[j] } else { '_' });
        if j < k1 {
            assert(m[j] == '_');
        } else if j < k1 + k2 {
            assert(t1[j - k1] == u[j - k1]);
            assert(u[j - k1] == m[j]);
            assert(t1[j - k1] == '-');
        } else if j < k1 + e1 {
            assert(w[j - k1 - k2] == t1[j - k1]);
            assert(t1[j - k1] == u[j - k1]);
            assert(u[j - k1] == m[j]);
            assert(w[j - k1 - k2] == '-');
        } else {
            assert(u[j - k1] == m[j]);
            assert(u[j - k1] == '_');
        }
    }
    if t2.len() == 0 {
        reveal_strlit("dep");
        assert forall|j: int| 0 <= j < input.len() implies is_cut_char(#[trigger] input[j]) by {
            assert(j < k1 + k2 || j >= k1 + k2 + e2);
        }
    } else {
        assert forall|k: int| 0 <= k < t2.len() implies #[trigger] t2[k] == if is_name_char(
            input[k1 + k2 + k],
        ) {
            input[k1 + k2 + k]
        } else {
            '_'
        } by {
            assert(t2[k] == w[k]);
            assert(w[k] == t1[k2 + k]);
            assert(t1[k2 + k] == u[k2 + k]);
            assert(u[k2 + k] == m[k1 + k2 + k]);
        }
        assert(kept_stretch(input, t2, k1 + k2, k1 + k2 + e2));
    }
}

/// After trimming a character from the front, everything cut off was that character.
proof fn lemma_trim_char_prefix_all(s: Seq<char>, c: char)
    ensures
        ({
            let k = s.len() - trim_char_start(s, c).len();
            &&& 0 <= k <= s.len()
            &&& trim_char_start(s, c) == s.skip(k)
            &&& forall|j: int| 0 <= j < k ==> #[trigger] s[j] == c
        }),
    decreases s.len(),
{
    if s.len() > 0 && s[0] == c {
        let t = s.drop_first();
        lemma_trim_char_prefix_all(t, c);
        let k = s.len() - trim_char_start(s, c).len();
        assert(t.skip(k - 1) =~= s.skip(k));
        assert forall|j: int| 0 <= j < k implies #[trigger] s[j] == c by {
            if j > 0 {
                assert(s[j] == t[j - 1]);
            }
        }
    } else {
        assert(s.skip(0) =~= s);
    }
}

/// After trimming a character from the back, everything cut off was that character.
proof fn lemma_trim_char_suffix_all(s: Seq<char>, c: char)
    ensures
        ({
            let k = trim_char_end(s, c).len() as int;
            &&& 0 <= k <= s.len()
            &&& trim_char_end(s, c) == s.take(k)
            &&& forall|j: int| k <= j < s.len() ==> #[trigger] s[j] == c
        }),
    decreases s.len(),
{
    if s.len() > 0 && s.last() == c {
        let t = s.drop_last();
        lemma_trim_char_suffix_all(t, c);
        let k = trim_char_end(s, c).len() as int;
        assert(t.take(k) =~= s.take(k));
        assert forall|j: int| k <= j < s.len() implies #[trigger] s[j] == c by {
            if j < s.len() - 1 {
                assert(s[j] == t[j]);
            }
        }
    } else {
        assert(s.take(s.len() as int) =~= s);
    }
}

/// A file name with a non-empty stem and the extension `c` or `C` is a C
/// source; `.c` alone, and a name without a dot, are not.
pub proof fn lemma_c_source_names(stem: Seq<char>)
    ensures
        stem.len() > 0 ==> spec_is_c_source(stem + ".c"@),
        stem.len() > 0 ==> spec_is_c_source(stem + ".C"@),
        !spec_is_c_source(".c"@),
        !stem.contains('.') ==> !spec_is_c_source(stem),
{
    reveal_strlit(".c");
    reveal_strlit(".C");
    reveal_strlit("c");
    reveal_strlit("C");
    let n = stem.len() as int;
    let a = stem + ".c"@;
    let b = stem + ".C"@;
    if n > 0 {
        assert(a.drop_last() =~= stem.push('.'));
        assert(b.drop_last() =~= stem.push('.'));
        assert(a.last() == 'c' && b.last() == 'C');
        assert(stem.push('.').last() == '.');
        assert(last_index_of(stem.push('.'), '.') == n);
        assert(last_index_of(a, '.') == last_index_of(a.drop_last(), '.'));
        assert(last_index_of(b, '.') == last_index_of(b.drop_last(), '.'));
        assert(last_index_of(a, '.') == n);
        assert(last_index_of(b, '.') == n);
        assert(a.skip(n + 1) =~= "c"@);
        assert(b.skip(n + 1) =~= "C"@);
    }
    let d = ".c"@;
    assert(d.drop_last() =~= seq!['.']);
    assert(seq!['.'].drop_last() =~= Seq::<char>::empty());
    assert(d.last() == 'c');
    assert(last_index_of(d, '.') == last_index_of(d.drop_last(), '.'));
    assert(last_index_of(seq!['.'], '.') == 0);
    assert(last_index_of(d, '.') == 0);
    lemma_last_index_of(stem, '.');
    if !stem.contains('.') {
        if last_index_of(stem, '.') >= 0 {
            assert(stem[last_index_of(stem, '.')] == '.');
        }
    }
}

} // verus!

verus! {

pub open spec fn is_repo_sep(c: char) -> bool {
    c == '/' || c == ':'
}

pub open spec fn ends_with_dotgit(t: Seq<char>) -> bool {
    t.len() >= 4 && t.skip(t.len() - 4) == ".git"@
}

/// Zero or more `.git` in a row.
pub open spec fn dotgits(t: Seq<char>) -> bool
    decreases t.len(),
{
    t.len() == 0 || (ends_with_dotgit(t) && dotgits(t.take(t.len() - 4)))
}

pub open spec fn slashes(t: Seq<char>) -> bool {
    forall|i: int| 0 <= i < t.len() ==> #[trigger] t[i] == '/'
}

/// The spec splits as `<...><sep or start>` `out` (= `spec[i..j]`, without
/// separators), then slashes (`spec[j..k]`), then a run of `.git` that is as
/// long as it can be (what precedes it does not end in `.git`).
pub open spec fn repo_split(spec: Seq<char>, i: int, j: int, k: int) -> bool {
    &&& 0 <= i <= j <= k <= spec.len()
    &&& (i == 0 || is_repo_sep(spec[i - 1]))
    &&& forall|m: int| i <= m < j ==> !is_repo_sep(#[trigger] spec[m])
    &&& slashes(spec.subrange(j, k))
    &&& dotgits(spec.skip(k))
    &&& !ends_with_dotgit(spec.take(k))
}

proof fn lemma_trim_dotgit(s: Seq<char>) -> (k: int)
    ensures
        0 <= k <= s.len(),
        trim_suffix_all(s, ".git"@) == s.take(k),
        dotgits(s.skip(k)),
        !ends_with_dotgit(s.take(k)),
    decreases s.len(),
{
    reveal_strlit(".git");
    if s.len() >= 4 && s.skip(s.len() - 4) == ".git"@ {
        let t = s.take(s.len() - 4);
        let k1 = lemma_trim_dotgit(t);
        assert(t.take(k1) =~= s.take(k1));
        let r = s.skip(k1);
        assert(r.take(r.len() - 4) =~= t.skip(k1));
        assert(r.skip(r.len() - 4) =~= s.skip(s.len() - 4));
        k1
    } else {
        assert(s.take(s.len() as int) =~= s);
        assert(s.skip(s.len() as int) =~= Seq::<char>::empty());
        s.len() as int
    }
}

proof fn lemma_last_segment_at(t: Seq<char>) -> (i: int)
    ensures
        0 <= i <= t.len(),
        last_segment(t) == t.skip(i),
        i == 0 || is_repo_sep(t[i - 1]),
        forall|m: int| i <= m < t.len() ==> !is_repo_sep(#[trigger] t[m]),
    decreases t.len(),
{
    if t.len() == 0 {
        assert(t.skip(0) =~= t);
        0
    } else if is_repo_sep(t.last()) {
        assert(t.skip(t.len() as int) =~= Seq::<char>::empty());
        assert(t[t.len() - 1] == t.last());
        t.len() as int
    } else {
        let d = t.drop_last();
        let i = lemma_last_segment_at(d);
        assert(d.skip(i).push(t.last()) =~= t.skip(i));
        assert forall|m: int| i <= m < t.len() implies !is_repo_sep(#[trigger] t[m]) by {
            if m < d.len() {
                assert(t[m] == d[m]);
            }
        }
        if i > 0 {
            assert(t[i - 1] == d[i - 1]);
        }
        i
    }
}

/// Where the repository name comes from: either the name is a stretch of the
/// spec that follows the last separator, followed only by slashes and then a
/// longest run of `.git`; or that stretch is empty and the name is `dep`.
pub proof fn lemma_repo_name_positions(spec: Seq<char>)
    ensures
        ({
            let out = spec_infer_repo_name(spec);
            ||| exists|i: int, j: int, k: int|
                #[trigger] repo_split(spec, i, j, k) && i < j && out == spec.subrange(i, j)
            ||| out == "dep"@ && exists|j: int, k: int| #[trigger] repo_split(spec, j, j, k)
        }),
{
    let k = lemma_trim_dotgit(spec);
    let x = spec.take(k);
    lemma_trim_char_suffix_all(x, '/');
    let j = trim_char_end(x, '/').len() as int;
    let t = x.take(j);
    assert(t =~= spec.take(j));
    let i = lemma_last_segment_at(t);
    assert(spec.subrange(j, k) =~= x.skip(j));
    assert(slashes(spec.subrange(j, k))) by {
        assert forall|m: int| 0 <= m < spec.subrange(j, k).len() implies #[trigger] spec.subrange(
            j,
            k,
        )[m] == '/' by {
            assert(x[j + m] == '/');
        }
    }
    assert(i == 0 || is_repo_sep(spec[i - 1])) by {
        if i > 0 {
            assert(t[i - 1] == spec[i - 1]);
        }
    }
    assert forall|m: int| i <= m < j implies !is_repo_sep(#[trigger] spec[m]) by {
        assert(t[m] == spec[m]);
    }
    assert(repo_split(spec, i, j, k));
    if i < j {
        assert(t.skip(i) =~= spec.subrange(i, j));
    } else {
        reveal_strlit("dep");
        assert(t.skip(i) =~= Seq::<char>::empty());
        assert(repo_split(spec, j, j, k)) by {
            assert(i == j);
        }
    }
}

} // verus!

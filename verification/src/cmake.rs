use vstd::prelude::*;
use crate::text::{
    chars_of, copy_chars, join_lines, push_char, push_joined, push_terminated, split_lines, spec_lines,
    terminated, trim, trimmed_equals, views, is_ws, no_break, lemma_no_break_concat, lemma_plain_lines,
    lemma_trim_first, lemma_lines_terminated, lemma_terminated_concat, lemma_trim_solid,
    lemma_lines_after_newline, plain_lines, lemma_lines_rejoin, lemma_lines_without_cr,
    lemma_lines_of_join, lemma_join_without_cr,
};

verus! {

pub open spec fn ascii_upper(c: char) -> char {
    if 'a' <= c <= 'z' {
        (c as int - 32) as char
    } else {
        c
    }
}

/// The model of `str::to_ascii_uppercase`.
pub open spec fn upper(s: Seq<char>) -> Seq<char> {
    s.map_values(|c: char| ascii_upper(c))
}

pub open spec fn begin_marker(dep: Seq<char>) -> Seq<char> {
    "# mux:dep begin "@ + dep
}

pub open spec fn end_marker(dep: Seq<char>) -> Seq<char> {
    "# mux:dep end "@ + dep
}

pub open spec fn link_lines(tgt: Seq<char>) -> Seq<Seq<char>> {
    seq![
        "target_link_libraries(main PRIVATE "@ + tgt + ")"@,
        "target_link_libraries(test_main PRIVATE "@ + tgt + ")"@,
    ]
}

/// The CMake commands that wire a dependency, by what it ships: its own
/// `CMakeLists.txt`, C sources to build into a static library, or headers only.
pub open spec fn body_lines(
    up: Seq<char>,
    inc: Seq<char>,
    tgt: Seq<char>,
    has_cmake: bool,
    has_sources: bool,
) -> Seq<Seq<char>> {
    if has_cmake {
        seq![
            "set("@ + up + "_BUILD_TESTS OFF CACHE BOOL \"\" FORCE)"@,
            "set("@ + up + "_BUILD_TESTING OFF CACHE BOOL \"\" FORCE)"@,
            "set(ENABLE_"@ + up + "_TEST OFF CACHE BOOL \"\" FORCE)"@,
            "set(ENABLE_"@ + up + "_TESTS OFF CACHE BOOL \"\" FORCE)"@,
            "set(BUILD_TESTS OFF CACHE BOOL \"\" FORCE)"@,
            "set(BUILD_TESTING OFF CACHE BOOL \"\" FORCE)"@,
            "add_subdirectory("@ + inc + ")"@,
            "target_include_directories(main PRIVATE "@ + inc + ")"@,
            "target_include_directories(test_main PRIVATE "@ + inc + ")"@,
        ] + link_lines(tgt)
    } else if has_sources {
        seq![
            "file(GLOB_RECURSE MUX_"@ + up + "_SOURCES CONFIGURE_DEPENDS "@ + inc + "/*.c)"@,
            "add_library("@ + tgt + " STATIC ${MUX_"@ + up + "_SOURCES})"@,
            "target_include_directories("@ + tgt + " PUBLIC "@ + inc + ")"@,
        ] + link_lines(tgt)
    } else {
        seq![
            "target_include_directories(main PRIVATE "@ + inc + ")"@,
            "target_include_directories(test_main PRIVATE "@ + inc + ")"@,
        ]
    }
}

pub open spec fn spaces(n: nat) -> Seq<char> {
    Seq::new(n, |_i: int| ' ')
}

/// Every line of `text` prefixed by `n` spaces and terminated by a newline.
pub open spec fn spec_indent(text: Seq<char>, n: nat) -> Seq<char> {
    terminated(spec_lines(text).map_values(|l: Seq<char>| spaces(n) + l))
}

pub open spec fn head_lines(dep: Seq<char>) -> Seq<Seq<char>> {
    seq![
        begin_marker(dep),
        "if(NOT MUX_DEP_"@ + upper(dep) + "_ADDED)"@,
        "set(MUX_DEP_"@ + upper(dep) + "_ADDED ON)"@,
    ]
}

pub open spec fn tail_lines(dep: Seq<char>) -> Seq<Seq<char>> {
    seq!["endif()"@, end_marker(dep)]
}

/// The block appended to `CMakeLists.txt` for a dependency: a blank line, the
/// begin marker, a guard, the indented wiring commands, and the end marker.
pub open spec fn spec_render_block(
    dep: Seq<char>,
    inc: Seq<char>,
    tgt: Seq<char>,
    has_cmake: bool,
    has_sources: bool,
) -> Seq<char> {
    "\n"@ + terminated(head_lines(dep)) + spec_indent(
        terminated(body_lines(upper(dep), inc, tgt, has_cmake, has_sources)),
        2,
    ) + terminated(tail_lines(dep))
}

/// One line of the strip pass: a begin marker starts skipping (and records a
/// removal), an end marker while skipping stops it, other lines are kept
/// unless skipping. State: (kept lines, skipping, removed).
pub open spec fn strip_step(
    st: (Seq<Seq<char>>, bool, bool),
    line: Seq<char>,
    begin: Seq<char>,
    end: Seq<char>,
) -> (Seq<Seq<char>>, bool, bool) {
    if trim(line) == begin {
        (st.0, true, true)
    } else if st.1 && trim(line) == end {
        (st.0, false, st.2)
    } else if !st.1 {
        (st.0.push(line), st.1, st.2)
    } else {
        st
    }
}

pub open spec fn strip_run(
    st: (Seq<Seq<char>>, bool, bool),
    ls: Seq<Seq<char>>,
    begin: Seq<char>,
    end: Seq<char>,
) -> (Seq<Seq<char>>, bool, bool)
    decreases ls.len(),
{
    if ls.len() == 0 {
        st
    } else {
        strip_step(strip_run(st, ls.drop_last(), begin, end), ls.last(), begin, end)
    }
}

pub open spec fn strip_state(text: Seq<char>, dep: Seq<char>) -> (Seq<Seq<char>>, bool, bool) {
    strip_run(
        (Seq::<Seq<char>>::empty(), false, false),
        spec_lines(text),
        begin_marker(dep),
        end_marker(dep),
    )
}

/// The text with every block of `dep` removed (from its begin marker through
/// its end marker), lines rejoined with `\n` and a final newline kept; and
/// whether a begin marker was seen.
pub open spec fn spec_strip_block(text: Seq<char>, dep: Seq<char>) -> (Seq<char>, bool) {
    let st = strip_state(text, dep);
    (
        if text.len() > 0 && text.last() == '\n' {
            join_lines(st.0) + "\n"@
        } else {
            join_lines(st.0)
        },
        st.2,
    )
}

// ---------------------------------------------------------------------------

fn ascii_upper_char(c: char) -> (r: char)
    ensures
        r == ascii_upper(c),
{
    if 'a' <= c && c <= 'z' {
        ((c as u8) - 32) as char
    } else {
        c
    }
}

fn upper_of(s: &str) -> (r: String)
    ensures
        r@ == upper(s@),
{
    let v = chars_of(s);
    let mut r = String::new();
    let mut i: usize = 0;
    while i < v.len()
        invariant
            i <= v.len(),
            v@ == s@,
            r@ == upper(v@.take(i as int)),
        decreases v.len() - i,
    {
        push_char(&mut r, ascii_upper_char(v[i]));
        i = i + 1;
        assert(r@ =~= upper(v@.take(i as int)));
    }
    assert(v@.take(v.len() as int) =~= v@);
    r
}

fn cat3(a: &str, b: &str, c: &str) -> (v: Vec<char>)
    ensures
        v@ == a@ + b@ + c@,
{
    chars_of(String::from_str(a).concat(b).concat(c).as_str())
}

fn cat5(a: &str, b: &str, c: &str, d: &str, e: &str) -> (v: Vec<char>)
    ensures
        v@ == a@ + b@ + c@ + d@ + e@,
{
    chars_of(String::from_str(a).concat(b).concat(c).concat(d).concat(e).as_str())
}

fn body_vec(up: &str, inc: &str, tgt: &str, has_cmake: bool, has_sources: bool) -> (ls: Vec<
    Vec<char>,
>)
    ensures
        views(ls@) == body_lines(up@, inc@, tgt@, has_cmake, has_sources),
{
    let mut ls: Vec<Vec<char>> = Vec::new();
    if has_cmake {
        ls.push(cat3("set(", up, "_BUILD_TESTS OFF CACHE BOOL \"\" FORCE)"));
        ls.push(cat3("set(", up, "_BUILD_TESTING OFF CACHE BOOL \"\" FORCE)"));
        ls.push(cat3("set(ENABLE_", up, "_TEST OFF CACHE BOOL \"\" FORCE)"));
        ls.push(cat3("set(ENABLE_", up, "_TESTS OFF CACHE BOOL \"\" FORCE)"));
        ls.push(chars_of("set(BUILD_TESTS OFF CACHE BOOL \"\" FORCE)"));
        ls.push(chars_of("set(BUILD_TESTING OFF CACHE BOOL \"\" FORCE)"));
        ls.push(cat3("add_subdirectory(", inc, ")"));
        ls.push(cat3("target_include_directories(main PRIVATE ", inc, ")"));
        ls.push(cat3("target_include_directories(test_main PRIVATE ", inc, ")"));
        ls.push(cat3("target_link_libraries(main PRIVATE ", tgt, ")"));
        ls.push(cat3("target_link_libraries(test_main PRIVATE ", tgt, ")"));
    } else if has_sources {
        ls.push(
            cat5("file(GLOB_RECURSE MUX_", up, "_SOURCES CONFIGURE_DEPENDS ", inc, "/*.c)"),
        );
        ls.push(cat5("add_library(", tgt, " STATIC ${MUX_", up, "_SOURCES})"));
        ls.push(cat5("target_include_directories(", tgt, " PUBLIC ", inc, ")"));
        ls.push(cat3("target_link_libraries(main PRIVATE ", tgt, ")"));
        ls.push(cat3("target_link_libraries(test_main PRIVATE ", tgt, ")"));
    } else {
        ls.push(cat3("target_include_directories(main PRIVATE ", inc, ")"));
        ls.push(cat3("target_include_directories(test_main PRIVATE ", inc, ")"));
    }
    assert(views(ls@) =~= body_lines(up@, inc@, tgt@, has_cmake, has_sources));
    ls
}

/// Prefixes every line of `text` with `spaces` spaces and ends each with a newline.
pub fn indent_cmake(text: &str, spaces: usize) -> (res: String)
    ensures
        res@ == spec_indent(text@, spaces as nat),
{
    let v = chars_of(text);
    let ls = split_lines(&v);
    let mut out: Vec<Vec<char>> = Vec::new();
    let mut i: usize = 0;
    while i < ls.len()
        invariant
            i <= ls.len(),
            views(ls@) == spec_lines(text@),
            views(out@) == views(ls@).take(i as int).map_values(
                |l: Seq<char>| crate::cmake::spaces(spaces as nat) + l,
            ),
        decreases ls.len() - i,
    {
        let mut line: Vec<char> = Vec::new();
        let mut k: usize = 0;
        while k < spaces
            invariant
                k <= spaces,
                line@ == crate::cmake::spaces(k as nat),
            decreases spaces - k,
        {
            line.push(' ');
            k = k + 1;
            assert(line@ =~= crate::cmake::spaces(k as nat));
        }
        let mut j: usize = 0;
        while j < ls[i].len()
            invariant
                i < ls.len(),
                j <= ls@[i as int]@.len(),
                line@ == crate::cmake::spaces(spaces as nat) + ls@[i as int]@.take(j as int),
            decreases ls@[i as int]@.len() - j,
        {
            line.push(ls[i][j]);
            j = j + 1;
            assert(line@ =~= crate::cmake::spaces(spaces as nat) + ls@[i as int]@.take(j as int));
        }
        assert(ls@[i as int]@.take(j as int) =~= ls@[i as int]@);
        let ghost lv = line@;
        let ghost old_out = out@;
        out.push(line);
        assert(views(out@) =~= views(old_out).push(lv));
        assert(views(ls@).take(i + 1) =~= views(ls@).take(i as int).push(ls@[i as int]@));
        i = i + 1;
        assert(views(out@) =~= views(ls@).take(i as int).map_values(
            |l: Seq<char>| crate::cmake::spaces(spaces as nat) + l,
        ));
    }
    assert(views(ls@).take(ls.len() as int) =~= views(ls@));
    let mut res = String::new();
    push_terminated(&mut res, &out);
    assert(Seq::<char>::empty() + terminated(views(out@)) =~= terminated(views(out@)));
    res
}

/// Renders the `CMakeLists.txt` block that vendors and links a dependency.
pub fn render_dependency_cmake_block(
    dep_name: &str,
    include_path: &str,
    target_name: &str,
    has_cmake: bool,
    has_sources: bool,
) -> (res: String)
    ensures
        res@ == spec_render_block(dep_name@, include_path@, target_name@, has_cmake, has_sources),
{
    let up = upper_of(dep_name);
    let body_ls = body_vec(up.as_str(), include_path, target_name, has_cmake, has_sources);
    let mut body = String::new();
    push_terminated(&mut body, &body_ls);
    assert(body@ =~= terminated(body_lines(up@, include_path@, target_name@, has_cmake, has_sources)));
    let indented = indent_cmake(body.as_str(), 2);
    let mut head: Vec<Vec<char>> = Vec::new();
    head.push(cat3("# mux:dep begin ", dep_name, ""));
    head.push(cat3("if(NOT MUX_DEP_", up.as_str(), "_ADDED)"));
    head.push(cat3("set(MUX_DEP_", up.as_str(), "_ADDED ON)"));
    let mut tail: Vec<Vec<char>> = Vec::new();
    tail.push(chars_of("endif()"));
    tail.push(cat3("# mux:dep end ", dep_name, ""));
    proof {
        reveal_strlit("");
        assert(views(head@) =~= head_lines(dep_name@));
        assert(views(tail@) =~= tail_lines(dep_name@));
    }
    let mut res = String::from_str("\n");
    push_terminated(&mut res, &head);
    res.append(indented.as_str());
    push_terminated(&mut res, &tail);
    res
}

/// Removes every block of `dep_name` from CMake text; reports whether one was found.
pub fn strip_dependency_block(cmake: &str, dep_name: &str) -> (res: (String, bool))
    ensures
        (res.0@, res.1) == spec_strip_block(cmake@, dep_name@),
{
    let text = chars_of(cmake);
    let ls = split_lines(&text);
    let begin = cat3("# mux:dep begin ", dep_name, "");
    let end = cat3("# mux:dep end ", dep_name, "");
    proof {
        reveal_strlit("");
        assert(begin@ =~= begin_marker(dep_name@));
        assert(end@ =~= end_marker(dep_name@));
    }
    let mut kept: Vec<Vec<char>> = Vec::new();
    let mut skipping = false;
    let mut removed = false;
    let mut i: usize = 0;
    while i < ls.len()
        invariant
            i <= ls.len(),
            views(ls@) == spec_lines(cmake@),
            begin@ == begin_marker(dep_name@),
            end@ == end_marker(dep_name@),
            (views(kept@), skipping, removed) == strip_run(
                (Seq::<Seq<char>>::empty(), false, false),
                views(ls@).take(i as int),
                begin@,
                end@,
            ),
        decreases ls.len() - i,
    {
        let ghost prev = (views(kept@), skipping, removed);
        proof {
            let t = views(ls@).take(i + 1);
            assert(t.drop_last() =~= views(ls@).take(i as int));
            assert(t.last() == ls@[i as int]@);
        }
        if trimmed_equals(&ls[i], &begin) {
            skipping = true;
            removed = true;
        } else if skipping && trimmed_equals(&ls[i], &end) {
            skipping = false;
        } else if !skipping {
            let line = copy_chars(&ls[i]);
            let ghost old_kept = kept@;
            kept.push(line);
            assert(views(kept@) =~= views(old_kept).push(ls@[i as int]@));
        }
        i = i + 1;
    }
    assert(views(ls@).take(ls.len() as int) =~= views(ls@));
    let mut out = String::new();
    push_joined(&mut out, &kept);
    assert(Seq::<char>::empty() + join_lines(views(kept@)) =~= join_lines(views(kept@)));
    if text.len() > 0 && text[text.len() - 1] == '\n' {
        push_char(&mut out, '\n');
        proof {
            reveal_strlit("\n");
            assert(out@ =~= join_lines(views(kept@)) + "\n"@);
        }
    }
    (out, removed)
}

} // verus!

verus! {

// ---------------------------------------------------------------------------
// Removing a block after it was appended
// ---------------------------------------------------------------------------

/// A line whose first character is neither whitespace nor `#`.
pub open spec fn starts_solid(l: Seq<char>) -> bool {
    l.len() > 0 && !is_ws(l[0]) && l[0] != '#'
}

/// All lines of the appended block, in order.
pub open spec fn block_lines(
    dep: Seq<char>,
    inc: Seq<char>,
    tgt: Seq<char>,
    has_cmake: bool,
    has_sources: bool,
) -> Seq<Seq<char>> {
    head_lines(dep) + body_lines(upper(dep), inc, tgt, has_cmake, has_sources).map_values(
        |l: Seq<char>| spaces(2) + l,
    ) + tail_lines(dep)
}

proof fn lemma_strip_run_concat(
    st: (Seq<Seq<char>>, bool, bool),
    a: Seq<Seq<char>>,
    b: Seq<Seq<char>>,
    begin: Seq<char>,
    end: Seq<char>,
)
    ensures
        strip_run(st, a + b, begin, end) == strip_run(strip_run(st, a, begin, end), b, begin, end),
    decreases b.len(),
{
    if b.len() == 0 {
        assert(a + b =~= a);
    } else {
        assert((a + b).drop_last() =~= a + b.drop_last());
        assert((a + b).last() == b.last());
        lemma_strip_run_concat(st, a, b.drop_last(), begin, end);
    }
}

proof fn lemma_strip_run_one(
    st: (Seq<Seq<char>>, bool, bool),
    x: Seq<char>,
    begin: Seq<char>,
    end: Seq<char>,
)
    ensures
        strip_run(st, seq![x], begin, end) == strip_step(st, x, begin, end),
{
    assert(seq![x].drop_last() =~= Seq::<Seq<char>>::empty());
    assert(seq![x].last() == x);
    assert(strip_run(st, Seq::<Seq<char>>::empty(), begin, end) == st);
}

/// While skipping, lines that are not the end marker change nothing.
proof fn lemma_strip_skips(
    kept: Seq<Seq<char>>,
    ms: Seq<Seq<char>>,
    begin: Seq<char>,
    end: Seq<char>,
)
    requires
        forall|i: int| 0 <= i < ms.len() ==> trim(#[trigger] ms[i]) != end,
    ensures
        strip_run((kept, true, true), ms, begin, end) == (kept, true, true),
    decreases ms.len(),
{
    if ms.len() > 0 {
        assert forall|i: int| 0 <= i < ms.drop_last().len() implies trim(
            #[trigger] ms.drop_last()[i],
        ) != end by {
            assert(ms.drop_last()[i] == ms[i]);
        }
        lemma_strip_skips(kept, ms.drop_last(), begin, end);
        assert(trim(ms[ms.len() - 1]) != end);
    }
}

proof fn lemma_upper_no_break(s: Seq<char>)
    requires
        no_break(s),
    ensures
        no_break(upper(s)),
{
    assert forall|i: int| 0 <= i < upper(s).len() implies #[trigger] upper(s)[i] != '\n' && upper(
        s,
    )[i] != '\r' by {
        assert(s[i] != '\n' && s[i] != '\r');
    }
}

proof fn lemma_nb3(a: Seq<char>, b: Seq<char>, c: Seq<char>)
    requires
        no_break(a),
        no_break(b),
        no_break(c),
    ensures
        no_break(a + b + c),
{
    lemma_no_break_concat(a, b);
    lemma_no_break_concat(a + b, c);
}

proof fn lemma_nb5(a: Seq<char>, b: Seq<char>, c: Seq<char>, d: Seq<char>, e: Seq<char>)
    requires
        no_break(a),
        no_break(b),
        no_break(c),
        no_break(d),
        no_break(e),
    ensures
        no_break(a + b + c + d + e),
{
    lemma_nb3(a, b, c);
    lemma_nb3(a + b + c, d, e);
}

/// A line that starts with a literal starts as that literal does.
proof fn lemma_starts_with_lit(lit: Seq<char>, rest: Seq<char>)
    requires
        starts_solid(lit),
    ensures
        starts_solid(lit + rest),
{
    assert((lit + rest)[0] == lit[0]);
}

proof fn lemma_body_lines_shape(
    up: Seq<char>,
    inc: Seq<char>,
    tgt: Seq<char>,
    has_cmake: bool,
    has_sources: bool,
)
    requires
        no_break(up),
        no_break(inc),
        no_break(tgt),
    ensures
        forall|i: int|
            0 <= i < body_lines(up, inc, tgt, has_cmake, has_sources).len() ==> no_break(
                #[trigger] body_lines(up, inc, tgt, has_cmake, has_sources)[i],
            ) && starts_solid(body_lines(up, inc, tgt, has_cmake, has_sources)[i]),
{
    reveal_strlit("set(");
    reveal_strlit("_BUILD_TESTS OFF CACHE BOOL \"\" FORCE)");
    reveal_strlit("_BUILD_TESTING OFF CACHE BOOL \"\" FORCE)");
    reveal_strlit("set(ENABLE_");
    reveal_strlit("_TEST OFF CACHE BOOL \"\" FORCE)");
    reveal_strlit("_TESTS OFF CACHE BOOL \"\" FORCE)");
    reveal_strlit("set(BUILD_TESTS OFF CACHE BOOL \"\" FORCE)");
    reveal_strlit("set(BUILD_TESTING OFF CACHE BOOL \"\" FORCE)");
    reveal_strlit("add_subdirectory(");
    reveal_strlit(")");
    reveal_strlit("target_include_directories(main PRIVATE ");
    reveal_strlit("target_include_directories(test_main PRIVATE ");
    reveal_strlit("target_link_libraries(main PRIVATE ");
    reveal_strlit("target_link_libraries(test_main PRIVATE ");
    reveal_strlit("file(GLOB_RECURSE MUX_");
    reveal_strlit("_SOURCES CONFIGURE_DEPENDS ");
    reveal_strlit("/*.c)");
    reveal_strlit("add_library(");
    reveal_strlit(" STATIC ${MUX_");
    reveal_strlit("_SOURCES})");
    reveal_strlit("target_include_directories(");
    reveal_strlit(" PUBLIC ");
    let bl = body_lines(up, inc, tgt, has_cmake, has_sources);
    let l0 = "target_link_libraries(main PRIVATE "@ + tgt + ")"@;
    let l1 = "target_link_libraries(test_main PRIVATE "@ + tgt + ")"@;
    lemma_nb3("target_link_libraries(main PRIVATE "@, tgt, ")"@);
    lemma_nb3("target_link_libraries(test_main PRIVATE "@, tgt, ")"@);
    lemma_starts_with_lit("target_link_libraries(main PRIVATE "@, tgt + ")"@);
    lemma_starts_with_lit("target_link_libraries(test_main PRIVATE "@, tgt + ")"@);
    assert("target_link_libraries(main PRIVATE "@ + (tgt + ")"@) =~= l0);
    assert("target_link_libraries(test_main PRIVATE "@ + (tgt + ")"@) =~= l1);
    let i0 = "target_include_directories(main PRIVATE "@ + inc + ")"@;
    let i1 = "target_include_directories(test_main PRIVATE "@ + inc + ")"@;
    lemma_nb3("target_include_directories(main PRIVATE "@, inc, ")"@);
    lemma_nb3("target_include_directories(test_main PRIVATE "@, inc, ")"@);
    lemma_starts_with_lit("target_include_directories(main PRIVATE "@, inc + ")"@);
    lemma_starts_with_lit("target_include_directories(test_main PRIVATE "@, inc + ")"@);
    assert("target_include_directories(main PRIVATE "@ + (inc + ")"@) =~= i0);
    assert("target_include_directories(test_main PRIVATE "@ + (inc + ")"@) =~= i1);
    if has_cmake {
        let c0 = "set("@ + up + "_BUILD_TESTS OFF CACHE BOOL \"\" FORCE)"@;
        let c1 = "set("@ + up + "_BUILD_TESTING OFF CACHE BOOL \"\" FORCE)"@;
        let c2 = "set(ENABLE_"@ + up + "_TEST OFF CACHE BOOL \"\" FORCE)"@;
        let c3 = "set(ENABLE_"@ + up + "_TESTS OFF CACHE BOOL \"\" FORCE)"@;
        let c4 = "set(BUILD_TESTS OFF CACHE BOOL \"\" FORCE)"@;
        let c5 = "set(BUILD_TESTING OFF CACHE BOOL \"\" FORCE)"@;
        let c6 = "add_subdirectory("@ + inc + ")"@;
        lemma_nb3("set("@, up, "_BUILD_TESTS OFF CACHE BOOL \"\" FORCE)"@);
        lemma_nb3("set("@, up, "_BUILD_TESTING OFF CACHE BOOL \"\" FORCE)"@);
        lemma_nb3("set(ENABLE_"@, up, "_TEST OFF CACHE BOOL \"\" FORCE)"@);
        lemma_nb3("set(ENABLE_"@, up, "_TESTS OFF CACHE BOOL \"\" FORCE)"@);
        lemma_nb3("add_subdirectory("@, inc, ")"@);
        lemma_starts_with_lit("set("@, up + "_BUILD_TESTS OFF CACHE BOOL \"\" FORCE)"@);
        lemma_starts_with_lit("set("@, up + "_BUILD_TESTING OFF CACHE BOOL \"\" FORCE)"@);
        lemma_starts_with_lit("set(ENABLE_"@, up + "_TEST OFF CACHE BOOL \"\" FORCE)"@);
        lemma_starts_with_lit("set(ENABLE_"@, up + "_TESTS OFF CACHE BOOL \"\" FORCE)"@);
        lemma_starts_with_lit("add_subdirectory("@, inc + ")"@);
        assert("set("@ + (up + "_BUILD_TESTS OFF CACHE BOOL \"\" FORCE)"@) =~= c0);
        assert("set("@ + (up + "_BUILD_TESTING OFF CACHE BOOL \"\" FORCE)"@) =~= c1);
        assert("set(ENABLE_"@ + (up + "_TEST OFF CACHE BOOL \"\" FORCE)"@) =~= c2);
        assert("set(ENABLE_"@ + (up + "_TESTS OFF CACHE BOOL \"\" FORCE)"@) =~= c3);
        assert("add_subdirectory("@ + (inc + ")"@) =~= c6);
        assert(bl =~= seq![c0, c1, c2, c3, c4, c5, c6, i0, i1, l0, l1]);
    } else if has_sources {
        let s0 = "file(GLOB_RECURSE MUX_"@ + up + "_SOURCES CONFIGURE_DEPENDS "@ + inc + "/*.c)"@;
        let s1 = "add_library("@ + tgt + " STATIC ${MUX_"@ + up + "_SOURCES})"@;
        let s2 = "target_include_directories("@ + tgt + " PUBLIC "@ + inc + ")"@;
        lemma_nb5("file(GLOB_RECURSE MUX_"@, up, "_SOURCES CONFIGURE_DEPENDS "@, inc, "/*.c)"@);
        lemma_nb5("add_library("@, tgt, " STATIC ${MUX_"@, up, "_SOURCES})"@);
        lemma_nb5("target_include_directories("@, tgt, " PUBLIC "@, inc, ")"@);
        assert(s0[0] == 'f');
        assert(s1[0] == 'a');
        assert(s2[0] == 't');
        assert(bl =~= seq![s0, s1, s2, l0, l1]);
    } else {
        assert(bl =~= seq![i0, i1]);
    }
}

proof fn lemma_block_lines_shape(
    dep: Seq<char>,
    inc: Seq<char>,
    tgt: Seq<char>,
    has_cmake: bool,
    has_sources: bool,
)
    requires
        no_break(dep),
        no_break(inc),
        no_break(tgt),
    ensures
        plain_lines(block_lines(dep, inc, tgt, has_cmake, has_sources)),
        block_lines(dep, inc, tgt, has_cmake, has_sources).len() >= 2,
        block_lines(dep, inc, tgt, has_cmake, has_sources)[0] == begin_marker(dep),
        block_lines(dep, inc, tgt, has_cmake, has_sources).last() == end_marker(dep),
        forall|i: int|
            1 <= i < block_lines(dep, inc, tgt, has_cmake, has_sources).len() - 1 ==> trim(
                #[trigger] block_lines(dep, inc, tgt, has_cmake, has_sources)[i],
            ) != end_marker(dep),
        spec_render_block(dep, inc, tgt, has_cmake, has_sources) == "\n"@ + terminated(
            block_lines(dep, inc, tgt, has_cmake, has_sources),
        ),
{
    let up = upper(dep);
    lemma_upper_no_break(dep);
    lemma_body_lines_shape(up, inc, tgt, has_cmake, has_sources);
    let bl = body_lines(up, inc, tgt, has_cmake, has_sources);
    let ind = bl.map_values(|l: Seq<char>| spaces(2) + l);
    let head = head_lines(dep);
    let tail = tail_lines(dep);
    let all = block_lines(dep, inc, tgt, has_cmake, has_sources);
    assert(all == head + ind + tail);
    reveal_strlit("# mux:dep begin ");
    reveal_strlit("# mux:dep end ");
    reveal_strlit("if(NOT MUX_DEP_");
    reveal_strlit("_ADDED)");
    reveal_strlit("set(MUX_DEP_");
    reveal_strlit("_ADDED ON)");
    reveal_strlit("endif()");
    // every line is free of breaks
    lemma_no_break_concat("# mux:dep begin "@, dep);
    lemma_no_break_concat("# mux:dep end "@, dep);
    lemma_nb3("if(NOT MUX_DEP_"@, up, "_ADDED)"@);
    lemma_nb3("set(MUX_DEP_"@, up, "_ADDED ON)"@);
    assert(no_break(spaces(2)));
    assert forall|i: int| 0 <= i < ind.len() implies no_break(#[trigger] ind[i]) by {
        lemma_no_break_concat(spaces(2), bl[i]);
    }
    assert forall|i: int| 0 <= i < all.len() implies no_break(#[trigger] all[i]) by {
        if i < 3 {
            assert(all[i] == head[i]);
        } else if i < 3 + ind.len() {
            assert(all[i] == ind[i - 3]);
        } else {
            assert(all[i] == tail[i - 3 - ind.len()]);
        }
    }
    lemma_plain_lines(all);
    lemma_plain_lines(bl);
    // the middle lines do not trim to the end marker
    let em = end_marker(dep);
    assert(em[0] == '#');
    assert forall|i: int| 1 <= i < all.len() - 1 implies trim(#[trigger] all[i]) != em by {
        let l = all[i];
        if i == 1 {
            assert(l == head[1]);
            assert(l[0] == 'i');
            lemma_trim_first(l, 0);
        } else if i == 2 {
            assert(l == head[2]);
            assert(l[0] == 's');
            lemma_trim_first(l, 0);
        } else if i < 3 + ind.len() {
            assert(l == ind[i - 3]);
            let b = bl[i - 3];
            assert(starts_solid(b));
            assert(l[0] == ' ' && l[1] == ' ' && l[2] == b[0]);
            lemma_trim_first(l, 2);
        } else {
            assert(l == tail[0]);
            assert(l[0] == 'e');
            lemma_trim_first(l, 0);
        }
    }
    // the rendered text is the block's lines, each terminated
    lemma_lines_terminated(bl);
    assert(spec_indent(terminated(bl), 2) == terminated(ind));
    lemma_terminated_concat(head, ind);
    lemma_terminated_concat(head + ind, tail);
    reveal_strlit("\n");
}

/// Removing a dependency's block right after appending it gives the text back as
/// it was with one newline added, and reports the removal: `mux remove` undoes
/// the `CMakeLists.txt` change of `mux add`. This holds when the names hold no
/// line breaks, the dependency name is non-empty and does not end in
/// whitespace, and the text (with that newline) leaves no block of the same
/// dependency open.
pub proof fn lemma_strip_undoes_render(
    text: Seq<char>,
    dep: Seq<char>,
    inc: Seq<char>,
    tgt: Seq<char>,
    has_cmake: bool,
    has_sources: bool,
)
    requires
        no_break(dep),
        no_break(inc),
        no_break(tgt),
        dep.len() > 0,
        !is_ws(dep.last()),
        !strip_state(text + "\n"@, dep).1,
    ensures
        spec_strip_block(text + spec_render_block(dep, inc, tgt, has_cmake, has_sources), dep) == (
            spec_strip_block(text + "\n"@, dep).0,
            true,
        ),
{
    reveal_strlit("\n");
    reveal_strlit("# mux:dep begin ");
    reveal_strlit("# mux:dep end ");
    lemma_block_lines_shape(dep, inc, tgt, has_cmake, has_sources);
    let ls = block_lines(dep, inc, tgt, has_cmake, has_sources);
    let a = text + "\n"@;
    let full = text + spec_render_block(dep, inc, tgt, has_cmake, has_sources);
    assert(full =~= a + terminated(ls));
    assert(a.last() == '\n');
    lemma_lines_after_newline(a, terminated(ls));
    lemma_lines_terminated(ls);
    let bm = begin_marker(dep);
    let em = end_marker(dep);
    let init = (Seq::<Seq<char>>::empty(), false, false);
    lemma_strip_run_concat(init, spec_lines(a), ls, bm, em);
    let st = strip_state(a, dep);
    // the begin marker line
    lemma_trim_solid(bm);
    lemma_trim_solid(em);
    assert(bm[10] != em[10]);
    let mid = ls.subrange(1, ls.len() - 1);
    assert(ls =~= seq![ls[0]] + mid + seq![ls.last()]);
    lemma_strip_run_concat(st, seq![ls[0]] + mid, seq![ls.last()], bm, em);
    lemma_strip_run_concat(st, seq![ls[0]], mid, bm, em);
    lemma_strip_run_one(st, ls[0], bm, em);
    assert forall|i: int| 0 <= i < mid.len() implies trim(#[trigger] mid[i]) != em by {
        assert(mid[i] == ls[i + 1]);
    }
    lemma_strip_skips(st.0, mid, bm, em);
    lemma_strip_run_one((st.0, true, true), ls.last(), bm, em);
    // the result ends with a newline because the block does
    let t = terminated(ls);
    lemma_terminated_concat(ls.drop_last(), seq![ls.last()]);
    assert(ls.drop_last() + seq![ls.last()] =~= ls);
    assert(seq![ls.last()].drop_first() =~= Seq::<Seq<char>>::empty());
    assert(seq![ls.last()][0] == ls.last());
    assert(terminated(Seq::<Seq<char>>::empty()) == Seq::<char>::empty());
    assert(terminated(seq![ls.last()]) =~= ls.last() + seq!['\n']);
    assert(full.last() == '\n');
}

} // verus!

verus! {

/// Some line of the text, trimmed, is the begin marker of `dep`.
pub open spec fn has_block_start(text: Seq<char>, dep: Seq<char>) -> bool {
    exists|i: int|
        0 <= i < spec_lines(text).len() && trim(#[trigger] spec_lines(text)[i]) == begin_marker(
            dep,
        )
}

proof fn lemma_strip_run_keeps_all(ls: Seq<Seq<char>>, begin: Seq<char>, end: Seq<char>)
    requires
        forall|i: int| 0 <= i < ls.len() ==> trim(#[trigger] ls[i]) != begin,
    ensures
        strip_run((Seq::<Seq<char>>::empty(), false, false), ls, begin, end) == (ls, false, false),
    decreases ls.len(),
{
    if ls.len() > 0 {
        let d = ls.drop_last();
        assert forall|i: int| 0 <= i < d.len() implies trim(#[trigger] d[i]) != begin by {
            assert(d[i] == ls[i]);
        }
        lemma_strip_run_keeps_all(d, begin, end);
        assert(trim(ls[ls.len() - 1]) != begin);
        assert(d.push(ls.last()) =~= ls);
    }
}

/// Removing a dependency that has no block in the text leaves the text as it is
/// and reports nothing removed (for text without carriage returns, whose line
/// endings the removal would otherwise normalize).
pub proof fn lemma_strip_without_block(text: Seq<char>, dep: Seq<char>)
    requires
        !has_block_start(text, dep),
        !text.contains('\r'),
    ensures
        spec_strip_block(text, dep) == (text, false),
{
    let ls = spec_lines(text);
    assert forall|i: int| 0 <= i < ls.len() implies trim(#[trigger] ls[i]) != begin_marker(dep) by {
        if trim(ls[i]) == begin_marker(dep) {
            assert(has_block_start(text, dep));
        }
    }
    lemma_strip_run_keeps_all(ls, begin_marker(dep), end_marker(dep));
    lemma_lines_rejoin(text);
    reveal_strlit("\n");
    assert("\n"@ =~= seq!['\n']);
}

} // verus!

verus! {

proof fn lemma_strip_run_kept(ls: Seq<Seq<char>>, begin: Seq<char>, end: Seq<char>)
    ensures
        ({
            let kept = strip_run((Seq::<Seq<char>>::empty(), false, false), ls, begin, end).0;
            forall|k: int|
                0 <= k < kept.len() ==> trim(#[trigger] kept[k]) != begin && exists|i: int|
                    0 <= i < ls.len() && ls[i] == kept[k]
        }),
    decreases ls.len(),
{
    if ls.len() > 0 {
        let d = ls.drop_last();
        lemma_strip_run_kept(d, begin, end);
        let prev = strip_run((Seq::<Seq<char>>::empty(), false, false), d, begin, end);
        let kept = strip_run((Seq::<Seq<char>>::empty(), false, false), ls, begin, end).0;
        assert forall|k: int| 0 <= k < kept.len() implies trim(#[trigger] kept[k]) != begin
            && exists|i: int| 0 <= i < ls.len() && ls[i] == kept[k] by {
            if k < prev.0.len() {
                assert(kept[k] == prev.0[k]);
                let i = choose|i: int| 0 <= i < d.len() && d[i] == prev.0[k];
                assert(ls[i] == d[i]);
            } else {
                assert(kept[k] == ls.last());
                assert(ls[ls.len() - 1] == ls.last());
            }
        }
    }
}

/// Removing a dependency's blocks a second time finds nothing and changes
/// nothing (for text without carriage returns).
pub proof fn lemma_strip_idempotent(text: Seq<char>, dep: Seq<char>)
    requires
        !text.contains('\r'),
    ensures
        spec_strip_block(spec_strip_block(text, dep).0, dep) == (spec_strip_block(text, dep).0, false),
{
    reveal_strlit("\n");
    reveal_strlit("# mux:dep begin ");
    let bm = begin_marker(dep);
    let kept = strip_state(text, dep).0;
    let out = spec_strip_block(text, dep).0;
    assert("\n"@ =~= seq!['\n']);
    lemma_strip_run_kept(spec_lines(text), bm, end_marker(dep));
    lemma_lines_without_cr(text);
    assert forall|k: int| 0 <= k < kept.len() implies no_break(#[trigger] kept[k]) by {
        let i = choose|i: int| 0 <= i < spec_lines(text).len() && spec_lines(text)[i] == kept[k];
        assert(no_break(spec_lines(text)[i]));
    }
    lemma_lines_of_join(kept, out);
    assert(bm.len() > 0);
    assert(!has_block_start(out, dep)) by {
        if has_block_start(out, dep) {
            let j = choose|j: int|
                0 <= j < spec_lines(out).len() && trim(#[trigger] spec_lines(out)[j]) == bm;
            let l = spec_lines(out)[j];
            if l.len() == 0 {
                assert(trim(l) =~= l);
            } else {
                let i = choose|i: int| 0 <= i < kept.len() && kept[i] == l;
                assert(trim(kept[i]) != bm);
            }
        }
    }
    lemma_join_without_cr(kept);
    assert(!out.contains('\r')) by {
        let j = join_lines(kept);
        if out.contains('\r') {
            let k = choose|k: int| 0 <= k < out.len() && out[k] == '\r';
            if k < j.len() {
                assert(out[k] == j[k]);
                assert(j.contains('\r'));
            }
        }
    }
    lemma_strip_without_block(out, dep);
}

} // verus!

verus! {

/// The lines of a rendered block: a blank line, then the block's lines.
pub proof fn lemma_render_lines(
    dep: Seq<char>,
    inc: Seq<char>,
    tgt: Seq<char>,
    has_cmake: bool,
    has_sources: bool,
)
    requires
        no_break(dep),
        no_break(inc),
        no_break(tgt),
    ensures
        spec_lines(spec_render_block(dep, inc, tgt, has_cmake, has_sources)) == seq![
            Seq::<char>::empty(),
        ] + block_lines(dep, inc, tgt, has_cmake, has_sources),
{
    lemma_block_lines_shape(dep, inc, tgt, has_cmake, has_sources);
    let ls = block_lines(dep, inc, tgt, has_cmake, has_sources);
    reveal_strlit("\n");
    let nl = "\n"@;
    assert(nl.len() == 1 && nl.last() == '\n');
    lemma_lines_after_newline(nl, terminated(ls));
    lemma_lines_terminated(ls);
    assert(nl =~= Seq::<char>::empty() + seq!['\n']);
    assert(seq![Seq::<char>::empty()] =~= seq![Seq::<char>::empty()]);
    lemma_lines_terminated(seq![Seq::<char>::empty()]);
    assert(terminated(seq![Seq::<char>::empty()]) =~= nl) by {
        assert(seq![Seq::<char>::empty()].drop_first() =~= Seq::<Seq<char>>::empty());
        assert(seq![Seq::<char>::empty()][0] == Seq::<char>::empty());
        assert(terminated(Seq::<Seq<char>>::empty()) == Seq::<char>::empty());
    }
    assert(plain_lines(seq![Seq::<char>::empty()]));
}

/// Whatever a dependency ships, its block opens with the begin marker and the
/// guard, closes with `endif()` and the end marker, and wires it as the
/// original does: with its own `CMakeLists.txt` the directory is added as a
/// subdirectory and given to `main` and `test_main` as include directory and
/// the target is linked to both; with C sources a static library of the target
/// name is built from them, with the directory as its public include directory,
/// and linked to both; with neither, the directory is only given to both as
/// include directory. This holds for names without line breaks.
pub proof fn lemma_block_wires_dependency(
    dep: Seq<char>,
    inc: Seq<char>,
    tgt: Seq<char>,
    has_cmake: bool,
    has_sources: bool,
)
    requires
        no_break(dep),
        no_break(inc),
        no_break(tgt),
    ensures
        ({
            let ls = spec_lines(spec_render_block(dep, inc, tgt, has_cmake, has_sources));
            let up = upper(dep);
            &&& ls.len() >= 6
            &&& ls[0] == Seq::<char>::empty()
            &&& ls[1] == "# mux:dep begin "@ + dep
            &&& ls[2] == "if(NOT MUX_DEP_"@ + up + "_ADDED)"@
            &&& ls[3] == "set(MUX_DEP_"@ + up + "_ADDED ON)"@
            &&& ls[ls.len() - 2] == "endif()"@
            &&& ls[ls.len() - 1] == "# mux:dep end "@ + dep
            &&& has_cmake ==> {
                &&& ls.contains("  add_subdirectory("@ + inc + ")"@)
                &&& ls.contains("  target_include_directories(main PRIVATE "@ + inc + ")"@)
                &&& ls.contains("  target_include_directories(test_main PRIVATE "@ + inc + ")"@)
                &&& ls.contains("  target_link_libraries(main PRIVATE "@ + tgt + ")"@)
                &&& ls.contains("  target_link_libraries(test_main PRIVATE "@ + tgt + ")"@)
            }
            &&& !has_cmake && has_sources ==> {
                &&& ls.contains(
                    "  file(GLOB_RECURSE MUX_"@ + up + "_SOURCES CONFIGURE_DEPENDS "@ + inc
                        + "/*.c)"@,
                )
                &&& ls.contains("  add_library("@ + tgt + " STATIC ${MUX_"@ + up + "_SOURCES})"@)
                &&& ls.contains("  target_include_directories("@ + tgt + " PUBLIC "@ + inc + ")"@)
                &&& ls.contains("  target_link_libraries(main PRIVATE "@ + tgt + ")"@)
                &&& ls.contains("  target_link_libraries(test_main PRIVATE "@ + tgt + ")"@)
            }
            &&& !has_cmake && !has_sources ==> ls.len() == 8 && {
                &&& ls[4] == "  target_include_directories(main PRIVATE "@ + inc + ")"@
                &&& ls[5] == "  target_include_directories(test_main PRIVATE "@ + inc + ")"@
            }
        }),
{
    lemma_render_lines(dep, inc, tgt, has_cmake, has_sources);
    let ls = spec_lines(spec_render_block(dep, inc, tgt, has_cmake, has_sources));
    let up = upper(dep);
    let bl = body_lines(up, inc, tgt, has_cmake, has_sources);
    let all = block_lines(dep, inc, tgt, has_cmake, has_sources);
    let ind = bl.map_values(|l: Seq<char>| spaces(2) + l);
    assert(all == head_lines(dep) + ind + tail_lines(dep));
    assert(ls =~= seq![Seq::<char>::empty()] + all);
    reveal_strlit("  ");
    reveal_strlit("  add_subdirectory(");
    reveal_strlit("add_subdirectory(");
    reveal_strlit("  target_include_directories(main PRIVATE ");
    reveal_strlit("target_include_directories(main PRIVATE ");
    reveal_strlit("  target_include_directories(test_main PRIVATE ");
    reveal_strlit("target_include_directories(test_main PRIVATE ");
    reveal_strlit("  target_link_libraries(main PRIVATE ");
    reveal_strlit("target_link_libraries(main PRIVATE ");
    reveal_strlit("  target_link_libraries(test_main PRIVATE ");
    reveal_strlit("target_link_libraries(test_main PRIVATE ");
    reveal_strlit("  file(GLOB_RECURSE MUX_");
    reveal_strlit("file(GLOB_RECURSE MUX_");
    reveal_strlit("  add_library(");
    reveal_strlit("add_library(");
    reveal_strlit("  target_include_directories(");
    reveal_strlit("target_include_directories(");
    let sp = spaces(2);
    // an indented body line is found at its place in the block
    assert forall|k: int| 0 <= k < bl.len() implies ls[4 + k] == sp + bl[k] by {
        assert(ls[4 + k] == all[3 + k]);
        assert(all[3 + k] == ind[k]);
    }
    assert(ls.len() == 1 + 3 + bl.len() + 2);
    assert(ls[ls.len() - 2] == all[all.len() - 2]);
    assert(ls[ls.len() - 1] == all[all.len() - 1]);
    let i_main = "target_include_directories(main PRIVATE "@ + inc + ")"@;
    let i_test = "target_include_directories(test_main PRIVATE "@ + inc + ")"@;
    let l_main = "target_link_libraries(main PRIVATE "@ + tgt + ")"@;
    let l_test = "target_link_libraries(test_main PRIVATE "@ + tgt + ")"@;
    assert(sp + i_main =~= "  target_include_directories(main PRIVATE "@ + inc + ")"@);
    assert(sp + i_test =~= "  target_include_directories(test_main PRIVATE "@ + inc + ")"@);
    assert(sp + l_main =~= "  target_link_libraries(main PRIVATE "@ + tgt + ")"@);
    assert(sp + l_test =~= "  target_link_libraries(test_main PRIVATE "@ + tgt + ")"@);
    if has_cmake {
        let sub = "add_subdirectory("@ + inc + ")"@;
        assert(sp + sub =~= "  add_subdirectory("@ + inc + ")"@);
        assert(bl[6] == sub && bl[7] == i_main && bl[8] == i_test && bl[9] == l_main && bl[10]
            == l_test);
        assert(ls[10] == sp + bl[6]);
        assert(ls[11] == sp + bl[7]);
        assert(ls[12] == sp + bl[8]);
        assert(ls[13] == sp + bl[9]);
        assert(ls[14] == sp + bl[10]);
    } else if has_sources {
        let g = "file(GLOB_RECURSE MUX_"@ + up + "_SOURCES CONFIGURE_DEPENDS "@ + inc + "/*.c)"@;
        let a = "add_library("@ + tgt + " STATIC ${MUX_"@ + up + "_SOURCES})"@;
        let t = "target_include_directories("@ + tgt + " PUBLIC "@ + inc + ")"@;
        assert(sp + g =~= "  file(GLOB_RECURSE MUX_"@ + up + "_SOURCES CONFIGURE_DEPENDS "@ + inc
            + "/*.c)"@);
        assert(sp + a =~= "  add_library("@ + tgt + " STATIC ${MUX_"@ + up + "_SOURCES})"@);
        assert(sp + t =~= "  target_include_directories("@ + tgt + " PUBLIC "@ + inc + ")"@);
        assert(bl[0] == g && bl[1] == a && bl[2] == t && bl[3] == l_main && bl[4] == l_test);
        assert(ls[4] == sp + bl[0]);
        assert(ls[5] == sp + bl[1]);
        assert(ls[6] == sp + bl[2]);
        assert(ls[7] == sp + bl[3]);
        assert(ls[8] == sp + bl[4]);
    } else {
        assert(bl[0] == i_main && bl[1] == i_test);
        assert(ls[4] == sp + bl[0]);
        assert(ls[5] == sp + bl[1]);
    }
}

} // verus!

verus! {

/// Indenting keeps the lines of the text, in order, each behind `n` spaces
/// (for text without carriage returns).
pub proof fn lemma_indent_lines(text: Seq<char>, n: nat)
    requires
        !text.contains('\r'),
    ensures
        ({
            let src = spec_lines(text);
            let out = spec_lines(spec_indent(text, n));
            &&& out.len() == src.len()
            &&& forall|i: int|
                0 <= i < src.len() ==> {
                    &&& (#[trigger] out[i]).len() == n + src[i].len()
                    &&& forall|k: int| 0 <= k < n ==> out[i][k] == ' '
                    &&& forall|k: int| 0 <= k < src[i].len() ==> out[i][n + k] == src[i][k]
                }
        }),
{
    let src = spec_lines(text);
    lemma_lines_without_cr(text);
    let ind = src.map_values(|l: Seq<char>| spaces(n) + l);
    assert forall|i: int| 0 <= i < ind.len() implies no_break(#[trigger] ind[i]) by {
        assert(no_break(spaces(n)));
        lemma_no_break_concat(spaces(n), src[i]);
    }
    lemma_plain_lines(ind);
    lemma_lines_terminated(ind);
}

} // verus!

use vstd::prelude::*;

verus! {

// ---------------------------------------------------------------------------
// Mathematical model of the line and whitespace handling used on text files.
// ---------------------------------------------------------------------------

/// The pieces of `s` between occurrences of `sep`, empty pieces included
/// (the model of `str::split` with a single character).
pub open spec fn split_on(s: Seq<char>, sep: char) -> Seq<Seq<char>>
    decreases s.len(),
{
    if s.len() == 0 {
        seq![Seq::<char>::empty()]
    } else {
        let p = split_on(s.drop_last(), sep);
        if s.last() == sep {
            p.push(Seq::<char>::empty())
        } else {
            p.update(p.len() - 1, p.last().push(s.last()))
        }
    }
}

/// Drops one carriage return that ends a line.
pub open spec fn strip_cr(l: Seq<char>) -> Seq<char> {
    if l.len() > 0 && l.last() == '\r' {
        l.drop_last()
    } else {
        l
    }
}

/// The model of `str::lines`: lines end at `\n` or `\r\n`; the final line
/// ending is optional, and an empty final piece is no line.
pub open spec fn spec_lines(s: Seq<char>) -> Seq<Seq<char>> {
    let p = split_on(s, '\n');
    let ended = p.drop_last().map_values(|l: Seq<char>| strip_cr(l));
    if p.last().len() == 0 {
        ended
    } else {
        ended.push(p.last())
    }
}

/// The character sequences held by a vector of character vectors.
pub open spec fn views(ls: Seq<Vec<char>>) -> Seq<Seq<char>> {
    ls.map_values(|v: Vec<char>| v@)
}

/// Each line followed by a newline, all concatenated.
pub open spec fn terminated(ls: Seq<Seq<char>>) -> Seq<char>
    decreases ls.len(),
{
    if ls.len() == 0 {
        Seq::<char>::empty()
    } else {
        ls[0] + seq!['\n'] + terminated(ls.drop_first())
    }
}

/// The lines joined with newlines between them.
pub open spec fn join_lines(ls: Seq<Seq<char>>) -> Seq<char>
    decreases ls.len(),
{
    if ls.len() == 0 {
        Seq::<char>::empty()
    } else if ls.len() == 1 {
        ls[0]
    } else {
        join_lines(ls.drop_last()) + seq!['\n'] + ls.last()
    }
}

/// The Unicode `White_Space` characters, which `char::is_whitespace` accepts.
pub open spec fn is_ws(c: char) -> bool {
    ||| '\t' <= c <= '\r'
    ||| c == ' '
    ||| c == '\u{85}'
    ||| c == '\u{a0}'
    ||| c == '\u{1680}'
    ||| '\u{2000}' <= c <= '\u{200a}'
    ||| c == '\u{2028}'
    ||| c == '\u{2029}'
    ||| c == '\u{202f}'
    ||| c == '\u{205f}'
    ||| c == '\u{3000}'
}

pub open spec fn trim_start(s: Seq<char>) -> Seq<char>
    decreases s.len(),
{
    if s.len() > 0 && is_ws(s[0]) {
        trim_start(s.drop_first())
    } else {
        s
    }
}

pub open spec fn trim_end(s: Seq<char>) -> Seq<char>
    decreases s.len(),
{
    if s.len() > 0 && is_ws(s.last()) {
        trim_end(s.drop_last())
    } else {
        s
    }
}

/// The model of `str::trim`.
pub open spec fn trim(s: Seq<char>) -> Seq<char> {
    trim_end(trim_start(s))
}

// ---------------------------------------------------------------------------
// Lemmas
// ---------------------------------------------------------------------------

pub proof fn lemma_split_nonempty(s: Seq<char>, sep: char)
    ensures
        split_on(s, sep).len() >= 1,
    decreases s.len(),
{
    if s.len() > 0 {
        lemma_split_nonempty(s.drop_last(), sep);
    }
}

/// A piece without the separator splits into itself.
pub proof fn lemma_split_no_sep(s: Seq<char>, sep: char)
    requires
        !s.contains(sep),
    ensures
        split_on(s, sep) == seq![s],
    decreases s.len(),
{
    if s.len() > 0 {
        assert(!s.drop_last().contains(sep)) by {
            if s.drop_last().contains(sep) {
                let i = choose|i: int| 0 <= i < s.drop_last().len() && s.drop_last()[i] == sep;
                assert(s[i] == sep);
            }
        }
        lemma_split_no_sep(s.drop_last(), sep);
        assert(s.last() != sep) by {
            assert(s[s.len() - 1] == s.last());
        }
        assert(s.drop_last().push(s.last()) =~= s);
        let p = seq![s.drop_last()];
        assert(p.update(p.len() - 1, p.last().push(s.last())) =~= seq![s]);
    } else {
        assert(s =~= Seq::<char>::empty());
    }
}

/// Splitting around one separator splits the two sides independently.
pub proof fn lemma_split_around(a: Seq<char>, b: Seq<char>, sep: char)
    ensures
        split_on(a + seq![sep] + b, sep) == split_on(a, sep) + split_on(b, sep),
    decreases b.len(),
{
    lemma_split_nonempty(a, sep);
    lemma_split_nonempty(b, sep);
    if b.len() == 0 {
        assert(a + seq![sep] + b =~= a.push(sep));
        assert(a.push(sep).drop_last() =~= a);
        assert(split_on(a, sep) + seq![Seq::<char>::empty()] =~= split_on(a, sep).push(
            Seq::<char>::empty(),
        ));
    } else {
        let b1 = b.drop_last();
        let s = a + seq![sep] + b;
        assert(s.drop_last() =~= a + seq![sep] + b1);
        assert(s.last() == b.last());
        lemma_split_around(a, b1, sep);
        lemma_split_nonempty(b1, sep);
        let pa = split_on(a, sep);
        let pb1 = split_on(b1, sep);
        if b.last() == sep {
            assert((pa + pb1).push(Seq::<char>::empty()) =~= pa + pb1.push(Seq::<char>::empty()));
        } else {
            let q = pa + pb1;
            assert(q.update(q.len() - 1, q.last().push(b.last())) =~= pa + pb1.update(
                pb1.len() - 1,
                pb1.last().push(b.last()),
            ));
        }
    }
}

/// Splitting after a text that ends with the separator.
pub proof fn lemma_split_after_sep(a: Seq<char>, b: Seq<char>, sep: char)
    requires
        a.len() > 0,
        a.last() == sep,
    ensures
        split_on(a + b, sep) == split_on(a, sep).drop_last() + split_on(b, sep),
{
    let a1 = a.drop_last();
    assert(a =~= a1 + seq![sep]);
    assert(a + b =~= a1 + seq![sep] + b);
    lemma_split_around(a1, b, sep);
    assert(a1.push(sep) =~= a);
    assert(a.drop_last() =~= a1);
    assert(split_on(a, sep) == split_on(a1, sep).push(Seq::<char>::empty()));
    assert(split_on(a, sep).drop_last() =~= split_on(a1, sep));
    assert(split_on(Seq::<char>::empty(), sep) == seq![Seq::<char>::empty()]);
}

/// Lines that hold no line break and do not end with a carriage return.
pub open spec fn plain_lines(ls: Seq<Seq<char>>) -> bool {
    forall|i: int|
        0 <= i < ls.len() ==> !(#[trigger] ls[i]).contains('\n') && !(ls[i].len() > 0
            && ls[i].last() == '\r')
}

pub proof fn lemma_split_terminated(ls: Seq<Seq<char>>)
    requires
        plain_lines(ls),
    ensures
        split_on(terminated(ls), '\n') == ls.push(Seq::<char>::empty()),
    decreases ls.len(),
{
    if ls.len() == 0 {
        assert(split_on(Seq::<char>::empty(), '\n') =~= seq![Seq::<char>::empty()]);
    } else {
        let rest = ls.drop_first();
        assert(plain_lines(rest)) by {
            assert forall|i: int| 0 <= i < rest.len() implies !(#[trigger] rest[i]).contains('\n')
                && !(rest[i].len() > 0 && rest[i].last() == '\r') by {
                assert(rest[i] == ls[i + 1]);
            }
        }
        lemma_split_terminated(rest);
        assert(!ls[0].contains('\n'));
        lemma_split_around(ls[0], terminated(rest), '\n');
        lemma_split_no_sep(ls[0], '\n');
        assert(seq![ls[0]] + rest.push(Seq::<char>::empty()) =~= ls.push(Seq::<char>::empty()));
    }
}

/// Plain lines, each terminated, read back as the same lines.
pub proof fn lemma_lines_terminated(ls: Seq<Seq<char>>)
    requires
        plain_lines(ls),
    ensures
        spec_lines(terminated(ls)) == ls,
{
    lemma_split_terminated(ls);
    let p = ls.push(Seq::<char>::empty());
    assert(p.drop_last() =~= ls);
    assert(ls.map_values(|l: Seq<char>| strip_cr(l)) =~= ls);
}

/// The lines of a text that ends with a line break, followed by more text.
pub proof fn lemma_lines_after_newline(a: Seq<char>, b: Seq<char>)
    requires
        a.len() > 0,
        a.last() == '\n',
    ensures
        spec_lines(a + b) == spec_lines(a) + spec_lines(b),
{
    lemma_split_after_sep(a, b, '\n');
    lemma_split_nonempty(a, '\n');
    lemma_split_nonempty(b, '\n');
    let pa = split_on(a, '\n');
    let pb = split_on(b, '\n');
    let a1 = a.drop_last();
    assert(a1.push('\n') =~= a);
    assert(pa == split_on(a1, '\n').push(Seq::<char>::empty()));
    let p = pa.drop_last() + pb;
    assert(p.last() == pb.last());
    assert(p.drop_last() =~= pa.drop_last() + pb.drop_last());
    let f = |l: Seq<char>| strip_cr(l);
    assert((pa.drop_last() + pb.drop_last()).map_values(f) =~= pa.drop_last().map_values(f)
        + pb.drop_last().map_values(f));
    if pb.last().len() == 0 {
    } else {
        assert((pa.drop_last().map_values(f) + pb.drop_last().map_values(f)).push(pb.last())
            =~= pa.drop_last().map_values(f) + pb.drop_last().map_values(f).push(pb.last()));
    }
}

pub proof fn lemma_trim_start_at(s: Seq<char>, k: int)
    requires
        0 <= k <= s.len(),
        forall|j: int| 0 <= j < k ==> is_ws(#[trigger] s[j]),
        k == s.len() || !is_ws(s[k]),
    ensures
        trim_start(s) == s.skip(k),
    decreases k,
{
    if k == 0 {
        assert(s.skip(0) =~= s);
    } else {
        let t = s.drop_first();
        assert forall|j: int| 0 <= j < k - 1 implies is_ws(#[trigger] t[j]) by {
            assert(t[j] == s[j + 1]);
        }
        if k - 1 < t.len() {
            assert(t[k - 1] == s[k]);
        }
        lemma_trim_start_at(t, k - 1);
        assert(t.skip(k - 1) =~= s.skip(k));
    }
}

pub proof fn lemma_trim_end_at(s: Seq<char>, k: int)
    requires
        0 <= k <= s.len(),
        forall|j: int| k <= j < s.len() ==> is_ws(#[trigger] s[j]),
        k == 0 || !is_ws(s[k - 1]),
    ensures
        trim_end(s) == s.take(k),
    decreases s.len() - k,
{
    if k == s.len() {
        assert(s.take(k) =~= s);
        if s.len() > 0 {
            assert(s.last() == s[k - 1]);
        }
    } else {
        let t = s.drop_last();
        assert(is_ws(s[s.len() - 1]));
        assert forall|j: int| k <= j < t.len() implies is_ws(#[trigger] t[j]) by {
            assert(t[j] == s[j]);
        }
        if k > 0 {
            assert(t[k - 1] == s[k - 1]);
        }
        lemma_trim_end_at(t, k);
        assert(t.take(k) =~= s.take(k));
    }
}

/// A text whose first and last characters are not whitespace trims to itself.
pub proof fn lemma_trim_solid(s: Seq<char>)
    requires
        s.len() > 0,
        !is_ws(s[0]),
        !is_ws(s.last()),
    ensures
        trim(s) == s,
{
    lemma_trim_start_at(s, 0);
    assert(s.skip(0) =~= s);
    lemma_trim_end_at(s, s.len() as int);
    assert(s.take(s.len() as int) =~= s);
}

/// Trimming keeps the first non-whitespace character in front.
pub proof fn lemma_trim_first(s: Seq<char>, k: int)
    requires
        0 <= k < s.len(),
        forall|j: int| 0 <= j < k ==> is_ws(#[trigger] s[j]),
        !is_ws(s[k]),
    ensures
        trim(s).len() > 0,
        trim(s)[0] == s[k],
{
    lemma_trim_start_at(s, k);
    let u = s.skip(k);
    assert(u[0] == s[k]);
    lemma_trim_end_keeps_first(u);
}

pub proof fn lemma_trim_end_keeps_first(u: Seq<char>)
    requires
        u.len() > 0,
        !is_ws(u[0]),
    ensures
        trim_end(u).len() > 0,
        trim_end(u)[0] == u[0],
    decreases u.len(),
{
    if is_ws(u.last()) {
        assert(u.len() > 1);
        let t = u.drop_last();
        assert(t[0] == u[0]);
        lemma_trim_end_keeps_first(t);
    }
}

// ---------------------------------------------------------------------------
// Executable text primitives
// ---------------------------------------------------------------------------

/// The characters of a string, in order.
pub(crate) fn chars_of(s: &str) -> (v: Vec<char>)
    ensures
        v@ == s@,
{
    broadcast use vstd::string::group_string_axioms;
    let mut v: Vec<char> = Vec::new();
    for c in it: s.chars()
        invariant
            it.seq() == s@,
            v@ == it.seq().take(it.index() as int),
    {
        v.push(c);
    }
    v
}

/// Appends one character to a string. Calls `String::push`; the contract claims
/// the string afterwards is the old one followed by that character, as std
/// documents it.
#[verifier::external_body]
pub(crate) fn push_char(s: &mut String, c: char)
    ensures
        final(s)@ == old(s)@.push(c),
{
    s.push(c)
}

/// Appends all characters of `v` to `s`.
pub(crate) fn push_chars(s: &mut String, v: &Vec<char>)
    ensures
        final(s)@ == old(s)@ + v@,
{
    let ghost start = s@;
    let mut i: usize = 0;
    while i < v.len()
        invariant
            i <= v.len(),
            s@ == start + v@.take(i as int),
        decreases v.len() - i,
    {
        push_char(s, v[i]);
        i = i + 1;
        assert(v@.take(i as int) =~= v@.take((i - 1) as int).push(v@[i - 1]));
    }
    assert(v@.take(v.len() as int) =~= v@);
}

pub(crate) fn string_of(v: &Vec<char>) -> (s: String)
    ensures
        s@ == v@,
{
    let mut s = String::new();
    push_chars(&mut s, v);
    assert(Seq::<char>::empty() + v@ =~= v@);
    s
}

pub fn is_whitespace(c: char) -> (b: bool)
    ensures
        b == is_ws(c),
{
    ('\t' <= c && c <= '\r') || c == ' ' || c == '\u{85}' || c == '\u{a0}' || c == '\u{1680}'
        || ('\u{2000}' <= c && c <= '\u{200a}') || c == '\u{2028}' || c == '\u{2029}' || c
        == '\u{202f}' || c == '\u{205f}' || c == '\u{3000}'
}

/// Splits text into lines as `str::lines` does.
pub(crate) fn split_lines(text: &Vec<char>) -> (ls: Vec<Vec<char>>)
    ensures
        views(ls@) == spec_lines(text@),
{
    let mut out: Vec<Vec<char>> = Vec::new();
    let mut cur: Vec<char> = Vec::new();
    let ghost mut raw: Seq<Seq<char>> = Seq::empty();
    let mut i: usize = 0;
    while i < text.len()
        invariant
            i <= text.len(),
            split_on(text@.take(i as int), '\n') == raw.push(cur@),
            views(out@) == raw.map_values(|l: Seq<char>| strip_cr(l)),
        decreases text.len() - i,
    {
        let c = text[i];
        let ghost prev = text@.take(i as int);
        assert(text@.take((i + 1) as int).drop_last() =~= prev);
        assert(text@.take((i + 1) as int).last() == c);
        if c == '\n' {
            let ghost old_cur = cur@;
            let mut line = cur;
            if line.len() > 0 && line[line.len() - 1] == '\r' {
                line.pop();
            }
            assert(line@ == strip_cr(old_cur));
            let ghost lv = line@;
            let ghost old_out = out@;
            out.push(line);
            assert(views(out@) =~= views(old_out).push(lv));
            cur = Vec::new();
            proof {
                assert(views(out@) =~= raw.push(old_cur).map_values(
                    |l: Seq<char>| strip_cr(l),
                ));
                raw = raw.push(old_cur);
                assert(cur@ =~= Seq::<char>::empty());
            }
        } else {
            cur.push(c);
            proof {
                let p = raw.push(cur@.drop_last());
                assert(cur@.drop_last().push(c) =~= cur@);
                assert(p.update(p.len() - 1, p.last().push(c)) =~= raw.push(cur@));
            }
        }
        i = i + 1;
    }
    assert(text@.take(text.len() as int) =~= text@);
    proof {
        let p = raw.push(cur@);
        assert(p.drop_last() =~= raw);
    }
    let ghost cur_view = cur@;
    if cur.len() > 0 {
        out.push(cur);
        proof {
            assert(views(out@) =~= raw.map_values(|l: Seq<char>| strip_cr(l)).push(cur_view));
        }
    }
    out
}

/// Whether the trimmed line equals `target`.
pub(crate) fn trimmed_equals(line: &Vec<char>, target: &Vec<char>) -> (b: bool)
    ensures
        b == (trim(line@) == target@),
{
    let mut lo: usize = 0;
    while lo < line.len() && is_whitespace(line[lo])
        invariant
            lo <= line.len(),
            forall|j: int| 0 <= j < lo ==> is_ws(#[trigger] line@[j]),
        decreases line.len() - lo,
    {
        lo = lo + 1;
    }
    proof {
        lemma_trim_start_at(line@, lo as int);
    }
    let mut hi: usize = line.len();
    while hi > lo && is_whitespace(line[hi - 1])
        invariant
            lo <= hi <= line.len(),
            forall|j: int| hi <= j < line.len() ==> is_ws(#[trigger] line@[j]),
        decreases hi,
    {
        hi = hi - 1;
    }
    let ghost u = line@.skip(lo as int);
    proof {
        assert forall|j: int| hi - lo <= j < u.len() implies is_ws(#[trigger] u[j]) by {
            assert(u[j] == line@[j + lo]);
        }
        if hi > lo {
            assert(u[hi - lo - 1] == line@[hi - 1]);
        }
        lemma_trim_end_at(u, hi - lo);
    }
    let ghost t = u.take(hi - lo);
    if hi - lo != target.len() {
        return false;
    }
    let mut k: usize = 0;
    while k < target.len()
        invariant
            k <= target.len(),
            target.len() == hi - lo,
            lo <= hi <= line.len(),
            t == line@.skip(lo as int).take(hi - lo),
            trim(line@) == t,
            forall|j: int| 0 <= j < k ==> t[j] == target@[j],
        decreases target.len() - k,
    {
        if line[lo + k] != target[k] {
            assert(t[k as int] == line@[lo + k]);
            return false;
        }
        k = k + 1;
    }
    assert(t =~= target@);
    true
}

/// Concatenates each line followed by a newline.
pub(crate) fn push_terminated(s: &mut String, ls: &Vec<Vec<char>>)
    ensures
        final(s)@ == old(s)@ + terminated(views(ls@)),
{
    let ghost start = s@;
    let ghost all = views(ls@);
    let mut i: usize = 0;
    assert(all.skip(0) =~= all);
    while i < ls.len()
        invariant
            i <= ls.len(),
            all == views(ls@),
            s@ + terminated(all.skip(i as int)) == start + terminated(all),
        decreases ls.len() - i,
    {
        let ghost before = s@;
        push_chars(s, &ls[i]);
        push_char(s, '\n');
        proof {
            let rest = all.skip(i as int);
            assert(rest[0] == ls@[i as int]@);
            assert(rest.drop_first() =~= all.skip(i + 1));
            assert(s@ + terminated(all.skip(i + 1)) =~= before + terminated(rest));
        }
        i = i + 1;
    }
    assert(all.skip(ls.len() as int) =~= Seq::<Seq<char>>::empty());
    assert(s@ + Seq::<char>::empty() =~= s@);
}

/// Joins lines with newlines between them.
pub(crate) fn push_joined(s: &mut String, ls: &Vec<Vec<char>>)
    ensures
        final(s)@ == old(s)@ + join_lines(views(ls@)),
{
    let ghost start = s@;
    let ghost all = views(ls@);
    let mut i: usize = 0;
    while i < ls.len()
        invariant
            i <= ls.len(),
            all == views(ls@),
            s@ == start + join_lines(all.take(i as int)),
        decreases ls.len() - i,
    {
        let ghost before = s@;
        if i > 0 {
            push_char(s, '\n');
        }
        push_chars(s, &ls[i]);
        proof {
            let t = all.take(i + 1);
            assert(t.drop_last() =~= all.take(i as int));
            assert(t.last() == ls@[i as int]@);
            if i == 0 {
                assert(join_lines(t) == t[0]);
                assert(before =~= start + Seq::<char>::empty());
            }
            assert(s@ =~= start + join_lines(t));
        }
        i = i + 1;
    }
    assert(all.take(ls.len() as int) =~= all);
}

} // verus!

verus! {

/// Text without line breaks or carriage returns.
pub open spec fn no_break(s: Seq<char>) -> bool {
    forall|i: int| 0 <= i < s.len() ==> #[trigger] s[i] != '\n' && s[i] != '\r'
}

pub proof fn lemma_no_break_concat(a: Seq<char>, b: Seq<char>)
    requires
        no_break(a),
        no_break(b),
    ensures
        no_break(a + b),
{
    assert forall|i: int| 0 <= i < (a + b).len() implies #[trigger] (a + b)[i] != '\n' && (a
        + b)[i] != '\r' by {
        if i < a.len() {
            assert((a + b)[i] == a[i]);
        } else {
            assert((a + b)[i] == b[i - a.len()]);
        }
    }
}

/// Lines without breaks are plain.
pub proof fn lemma_plain_lines(ls: Seq<Seq<char>>)
    requires
        forall|i: int| 0 <= i < ls.len() ==> no_break(#[trigger] ls[i]),
    ensures
        plain_lines(ls),
{
    assert forall|i: int| 0 <= i < ls.len() implies !(#[trigger] ls[i]).contains('\n') && !(
    ls[i].len() > 0 && ls[i].last() == '\r') by {
        assert(no_break(ls[i]));
        if ls[i].contains('\n') {
            let j = choose|j: int| 0 <= j < ls[i].len() && ls[i][j] == '\n';
            assert(ls[i][j] != '\n');
        }
        if ls[i].len() > 0 {
            assert(ls[i][ls[i].len() - 1] != '\r');
        }
    }
}

pub proof fn lemma_terminated_concat(a: Seq<Seq<char>>, b: Seq<Seq<char>>)
    ensures
        terminated(a + b) == terminated(a) + terminated(b),
    decreases a.len(),
{
    if a.len() == 0 {
        assert(a + b =~= b);
        assert(Seq::<char>::empty() + terminated(b) =~= terminated(b));
    } else {
        assert((a + b).drop_first() =~= a.drop_first() + b);
        assert((a + b)[0] == a[0]);
        lemma_terminated_concat(a.drop_first(), b);
        assert(a[0] + seq!['\n'] + (terminated(a.drop_first()) + terminated(b)) =~= (a[0]
            + seq!['\n'] + terminated(a.drop_first())) + terminated(b));
    }
}

/// A copy of a character vector.
pub(crate) fn copy_chars(v: &Vec<char>) -> (r: Vec<char>)
    ensures
        r@ == v@,
{
    let mut r: Vec<char> = Vec::new();
    let mut i: usize = 0;
    while i < v.len()
        invariant
            i <= v.len(),
            r@ == v@.take(i as int),
        decreases v.len() - i,
    {
        r.push(v[i]);
        i = i + 1;
        assert(r@ =~= v@.take(i as int));
    }
    assert(v@.take(v.len() as int) =~= v@);
    r
}

} // verus!

verus! {

proof fn lemma_join_extend_last(p: Seq<Seq<char>>, c: char)
    requires
        p.len() >= 1,
    ensures
        join_lines(p.update(p.len() - 1, p.last().push(c))) == join_lines(p).push(c),
{
    let q = p.update(p.len() - 1, p.last().push(c));
    if p.len() == 1 {
        assert(q[0] == p[0].push(c));
    } else {
        assert(q.drop_last() =~= p.drop_last());
        assert(q.last() == p.last().push(c));
        assert(join_lines(p.drop_last()) + seq!['\n'] + p.last().push(c) =~= (join_lines(
            p.drop_last(),
        ) + seq!['\n'] + p.last()).push(c));
    }
}

/// Joining the pieces of a split with the separator gives the text back.
pub proof fn lemma_join_split(s: Seq<char>)
    ensures
        join_lines(split_on(s, '\n')) == s,
    decreases s.len(),
{
    if s.len() == 0 {
        assert(join_lines(seq![Seq::<char>::empty()]) == Seq::<char>::empty());
        assert(s =~= Seq::<char>::empty());
    } else {
        let s1 = s.drop_last();
        lemma_join_split(s1);
        lemma_split_nonempty(s1, '\n');
        let p = split_on(s1, '\n');
        if s.last() == '\n' {
            let q = p.push(Seq::<char>::empty());
            assert(q.drop_last() =~= p);
            assert(join_lines(q) == join_lines(p) + seq!['\n'] + Seq::<char>::empty());
            assert(s1 + seq!['\n'] + Seq::<char>::empty() =~= s);
        } else {
            lemma_join_extend_last(p, s.last());
            assert(s1.push(s.last()) =~= s);
        }
    }
}

/// The pieces of a split hold no character that the text does not hold.
pub proof fn lemma_split_pieces_without(s: Seq<char>, sep: char, c: char)
    requires
        !s.contains(c),
    ensures
        forall|i: int|
            0 <= i < split_on(s, sep).len() ==> !(#[trigger] split_on(s, sep)[i]).contains(c),
    decreases s.len(),
{
    lemma_split_nonempty(s, sep);
    if s.len() > 0 {
        let s1 = s.drop_last();
        assert(!s1.contains(c)) by {
            if s1.contains(c) {
                let j = choose|j: int| 0 <= j < s1.len() && s1[j] == c;
                assert(s[j] == c);
            }
        }
        lemma_split_pieces_without(s1, sep, c);
        lemma_split_nonempty(s1, sep);
        let p = split_on(s1, sep);
        assert(s.last() != c) by {
            assert(s[s.len() - 1] == s.last());
        }
        if s.last() != sep {
            assert forall|i: int| 0 <= i < split_on(s, sep).len() implies !(
            #[trigger] split_on(s, sep)[i]).contains(c) by {
                if i == p.len() - 1 {
                    let l = p.last().push(s.last());
                    assert(split_on(s, sep)[i] == l);
                    if l.contains(c) {
                        let j = choose|j: int| 0 <= j < l.len() && l[j] == c;
                        if j < p.last().len() {
                            assert(p.last()[j] == c);
                            assert(p.last().contains(c));
                        }
                    }
                } else {
                    assert(split_on(s, sep)[i] == p[i]);
                }
            }
        } else {
            assert forall|i: int| 0 <= i < split_on(s, sep).len() implies !(
            #[trigger] split_on(s, sep)[i]).contains(c) by {
                if i < p.len() {
                    assert(split_on(s, sep)[i] == p[i]);
                }
            }
        }
    }
}

/// A text without carriage returns is its lines joined, with its final newline
/// (if it has one) put back.
pub proof fn lemma_lines_rejoin(s: Seq<char>)
    requires
        !s.contains('\r'),
    ensures
        s == if s.len() > 0 && s.last() == '\n' {
            join_lines(spec_lines(s)) + seq!['\n']
        } else {
            join_lines(spec_lines(s))
        },
{
    lemma_split_nonempty(s, '\n');
    lemma_split_pieces_without(s, '\n', '\r');
    let p = split_on(s, '\n');
    assert(p.drop_last().map_values(|l: Seq<char>| strip_cr(l)) =~= p.drop_last()) by {
        assert forall|i: int| 0 <= i < p.drop_last().len() implies strip_cr(
            #[trigger] p.drop_last()[i],
        ) == p.drop_last()[i] by {
            let l = p.drop_last()[i];
            assert(l == p[i]);
            if l.len() > 0 && l.last() == '\r' {
                assert(l[l.len() - 1] == '\r');
                assert(l.contains('\r'));
            }
        }
    }
    lemma_join_split(s);
    if s.len() == 0 {
        assert(p == seq![Seq::<char>::empty()]);
        assert(spec_lines(s) =~= Seq::<Seq<char>>::empty());
    } else if s.last() == '\n' {
        let s1 = s.drop_last();
        lemma_split_nonempty(s1, '\n');
        assert(p == split_on(s1, '\n').push(Seq::<char>::empty()));
        assert(p.drop_last() =~= split_on(s1, '\n'));
        lemma_join_split(s1);
        assert(s1 + seq!['\n'] =~= s);
    } else {
        let s1 = s.drop_last();
        lemma_split_nonempty(s1, '\n');
        let p1 = split_on(s1, '\n');
        assert(p.last() == p1.last().push(s.last()));
        assert(p.drop_last().push(p.last()) =~= p);
    }
}

} // verus!

verus! {

/// Splitting joined lines that hold no line break gives the lines back.
pub proof fn lemma_split_join(ls: Seq<Seq<char>>)
    requires
        ls.len() >= 1,
        forall|i: int| 0 <= i < ls.len() ==> !(#[trigger] ls[i]).contains('\n'),
    ensures
        split_on(join_lines(ls), '\n') == ls,
    decreases ls.len(),
{
    if ls.len() == 1 {
        lemma_split_no_sep(ls[0], '\n');
        assert(seq![ls[0]] =~= ls);
    } else {
        let d = ls.drop_last();
        assert forall|i: int| 0 <= i < d.len() implies !(#[trigger] d[i]).contains('\n') by {
            assert(d[i] == ls[i]);
        }
        lemma_split_join(d);
        assert(!ls[ls.len() - 1].contains('\n'));
        lemma_split_no_sep(ls.last(), '\n');
        lemma_split_around(join_lines(d), ls.last(), '\n');
        assert(d + seq![ls.last()] =~= ls);
    }
}

/// Every line of a join of break-free lines (with or without a final newline)
/// is empty or one of those lines.
pub proof fn lemma_lines_of_join(ls: Seq<Seq<char>>, text: Seq<char>)
    requires
        forall|i: int| 0 <= i < ls.len() ==> no_break(#[trigger] ls[i]),
        text == join_lines(ls) || text == join_lines(ls) + seq!['\n'],
    ensures
        forall|j: int|
            0 <= j < spec_lines(text).len() ==> (#[trigger] spec_lines(text)[j]).len() == 0
                || exists|i: int| 0 <= i < ls.len() && ls[i] == spec_lines(text)[j],
{
    let with_newline = text != join_lines(ls);
    lemma_plain_lines(ls);
    if ls.len() == 0 {
        if with_newline {
            assert(text =~= seq!['\n']);
            assert(text.drop_last() =~= Seq::<char>::empty());
            assert(text.last() == '\n');
            assert(split_on(text.drop_last(), '\n') == seq![Seq::<char>::empty()]);
            assert(split_on(text, '\n') =~= seq![Seq::<char>::empty(), Seq::<char>::empty()]);
        } else {
            assert(text =~= Seq::<char>::empty());
        }
    } else {
        lemma_split_join(ls);
        let p = if with_newline {
            assert(text.drop_last() =~= join_lines(ls));
            assert(text.last() == '\n');
            ls.push(Seq::<char>::empty())
        } else {
            ls
        };
        assert(split_on(text, '\n') == p);
        assert forall|j: int| 0 <= j < spec_lines(text).len() implies (#[trigger] spec_lines(
            text,
        )[j]).len() == 0 || exists|i: int| 0 <= i < ls.len() && ls[i] == spec_lines(text)[j] by {
            if j < p.len() - 1 {
                assert(spec_lines(text)[j] == strip_cr(p[j]));
                assert(p[j] == ls[j]);
                assert(strip_cr(ls[j]) == ls[j]) by {
                    if ls[j].len() > 0 {
                        assert(ls[j][ls[j].len() - 1] != '\r');
                    }
                }
            } else {
                assert(spec_lines(text)[j] == p.last());
                if !with_newline {
                    assert(ls[ls.len() - 1] == p.last());
                }
            }
        }
    }
}

/// The lines of a text without carriage returns hold none either.
pub proof fn lemma_lines_without_cr(s: Seq<char>)
    requires
        !s.contains('\r'),
    ensures
        forall|j: int| 0 <= j < spec_lines(s).len() ==> no_break(#[trigger] spec_lines(s)[j]),
{
    lemma_split_nonempty(s, '\n');
    lemma_split_pieces_without(s, '\n', '\r');
    lemma_split_pieces_without_sep(s, '\n');
    let p = split_on(s, '\n');
    assert forall|j: int| 0 <= j < spec_lines(s).len() implies no_break(#[trigger] spec_lines(s)[j]) by {
        let l = spec_lines(s)[j];
        let piece = p[j];
        assert(!piece.contains('\r'));
        assert(!piece.contains('\n'));
        if j < p.len() - 1 {
            assert(l == strip_cr(piece));
        } else {
            assert(l == p.last());
        }
        assert forall|k: int| 0 <= k < l.len() implies #[trigger] l[k] != '\n' && l[k] != '\r' by {
            assert(l[k] == piece[k]);
        }
    }
}

pub proof fn lemma_split_pieces_without_sep(s: Seq<char>, sep: char)
    ensures
        forall|i: int|
            0 <= i < split_on(s, sep).len() ==> !(#[trigger] split_on(s, sep)[i]).contains(sep),
    decreases s.len(),
{
    lemma_split_nonempty(s, sep);
    if s.len() > 0 {
        let s1 = s.drop_last();
        lemma_split_pieces_without_sep(s1, sep);
        lemma_split_nonempty(s1, sep);
        let p = split_on(s1, sep);
        assert forall|i: int| 0 <= i < split_on(s, sep).len() implies !(#[trigger] split_on(
            s,
            sep,
        )[i]).contains(sep) by {
            if i < p.len() - 1 {
                assert(split_on(s, sep)[i] == p[i]);
            } else if i == p.len() - 1 {
                if s.last() != sep {
                    let l = p.last().push(s.last());
                    assert(split_on(s, sep)[i] == l);
                    if l.contains(sep) {
                        let j = choose|j: int| 0 <= j < l.len() && l[j] == sep;
                        if j < p.last().len() {
                            assert(p.last()[j] == sep);
                            assert(p.last().contains(sep));
                        }
                    }
                } else {
                    assert(split_on(s, sep)[i] == p[i]);
                }
            } else {
                assert(split_on(s, sep)[i] =~= Seq::<char>::empty());
            }
        }
    }
}

/// Joined break-free lines hold no carriage return.
pub proof fn lemma_join_without_cr(ls: Seq<Seq<char>>)
    requires
        forall|i: int| 0 <= i < ls.len() ==> no_break(#[trigger] ls[i]),
    ensures
        !join_lines(ls).contains('\r'),
    decreases ls.len(),
{
    if ls.len() == 1 {
        assert(no_break(ls[0]));
        if ls[0].contains('\r') {
            let k = choose|k: int| 0 <= k < ls[0].len() && ls[0][k] == '\r';
            assert(ls[0][k] != '\r');
        }
    } else if ls.len() >= 2 {
        let d = ls.drop_last();
        assert forall|i: int| 0 <= i < d.len() implies no_break(#[trigger] d[i]) by {
            assert(d[i] == ls[i]);
        }
        lemma_join_without_cr(d);
        assert(no_break(ls[ls.len() - 1]));
        let j = join_lines(d);
        let t = j + seq!['\n'] + ls.last();
        assert forall|k: int| 0 <= k < t.len() implies #[trigger] t[k] != '\r' by {
            if k < j.len() {
                assert(t[k] == j[k]);
                if j[k] == '\r' {
                    assert(j.contains('\r'));
                }
            } else if k > j.len() {
                assert(t[k] == ls.last()[k - j.len() - 1]);
            }
        }
        if t.contains('\r') {
            let k = choose|k: int| 0 <= k < t.len() && t[k] == '\r';
            assert(t[k] != '\r');
        }
    }
}

} // verus!

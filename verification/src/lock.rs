use vstd::prelude::*;
use crate::error::MuxError;
use crate::text::{
    chars_of, copy_chars, lemma_lines_terminated, lemma_no_break_concat, lemma_plain_lines,
    lemma_split_around, lemma_split_no_sep, lemma_terminated_concat, no_break, push_terminated,
    spec_lines, split_lines, split_on, string_of, terminated, views,
};

verus! {

/// One dependency recorded in `mux.lock`.
#[derive(Debug, PartialEq, Eq)]
pub struct LockEntry {
    pub name: String,
    pub source: String,
    pub target: String,
    pub include_dir: String,
}

/// A lock row: name, source, target, include.
pub type LockRow = (Seq<char>, Seq<char>, Seq<char>, Seq<char>);

impl View for LockEntry {
    type V = LockRow;

    open spec fn view(&self) -> LockRow {
        (self.name@, self.source@, self.target@, self.include_dir@)
    }
}

pub open spec fn rows_of(es: Seq<LockEntry>) -> Seq<LockRow> {
    es.map_values(|e: LockEntry| e@)
}

/// Blank lines and lines starting with `#` carry no entry.
pub open spec fn is_ignored_line(l: Seq<char>) -> bool {
    l.len() == 0 || l[0] == '#'
}

/// A lock line is four tab-separated columns.
pub open spec fn parse_lock_line(l: Seq<char>) -> Option<LockRow> {
    let p = split_on(l, '\t');
    if p.len() == 4 {
        Some((p[0], p[1], p[2], p[3]))
    } else {
        None
    }
}

/// The entries of the lines, or the 1-based number of the first malformed line.
pub open spec fn parse_lock_lines(ls: Seq<Seq<char>>) -> Result<Seq<LockRow>, nat>
    decreases ls.len(),
{
    if ls.len() == 0 {
        Ok(Seq::empty())
    } else {
        match parse_lock_lines(ls.drop_last()) {
            Err(n) => Err(n),
            Ok(rows) => if is_ignored_line(ls.last()) {
                Ok(rows)
            } else {
                match parse_lock_line(ls.last()) {
                    Some(r) => Ok(rows.push(r)),
                    None => Err(ls.len()),
                }
            },
        }
    }
}

pub open spec fn spec_parse_lock(text: Seq<char>) -> Result<Seq<LockRow>, nat> {
    parse_lock_lines(spec_lines(text))
}

pub open spec fn row_line(r: LockRow) -> Seq<char> {
    r.0 + "\t"@ + r.1 + "\t"@ + r.2 + "\t"@ + r.3
}

pub open spec fn lock_header() -> Seq<Seq<char>> {
    seq!["# mux lock v1"@, "# name\\tsource\\ttarget\\tinclude"@]
}

/// The lock file: a two-line comment header, then one tab-separated line per entry.
pub open spec fn spec_render_lock(rows: Seq<LockRow>) -> Seq<char> {
    terminated(lock_header() + rows.map_values(|r: LockRow| row_line(r)))
}

/// Index of the first row with the given name, or -1.
pub open spec fn first_index(rows: Seq<LockRow>, name: Seq<char>) -> int
    decreases rows.len(),
{
    if rows.len() == 0 {
        -1
    } else {
        let i = first_index(rows.drop_last(), name);
        if i >= 0 {
            i
        } else if rows.last().0 == name {
            rows.len() - 1
        } else {
            -1
        }
    }
}

/// Records an entry: it replaces the first entry of the same name, or is appended.
pub open spec fn spec_lock_add(rows: Seq<LockRow>, r: LockRow) -> Seq<LockRow> {
    let i = first_index(rows, r.0);
    if i >= 0 {
        rows.update(i, r)
    } else {
        rows.push(r)
    }
}

/// Drops every entry of the given name, keeping the order of the others.
pub open spec fn spec_lock_remove(rows: Seq<LockRow>, name: Seq<char>) -> Seq<LockRow>
    decreases rows.len(),
{
    if rows.len() == 0 {
        rows
    } else {
        let p = spec_lock_remove(rows.drop_last(), name);
        if rows.last().0 == name {
            p
        } else {
            p.push(rows.last())
        }
    }
}

// ---------------------------------------------------------------------------

fn split_chars(v: &Vec<char>, sep: char) -> (ps: Vec<Vec<char>>)
    ensures
        views(ps@) == split_on(v@, sep),
{
    let mut out: Vec<Vec<char>> = Vec::new();
    let mut cur: Vec<char> = Vec::new();
    let mut i: usize = 0;
    while i < v.len()
        invariant
            i <= v.len(),
            split_on(v@.take(i as int), sep) == views(out@).push(cur@),
        decreases v.len() - i,
    {
        let c = v[i];
        assert(v@.take((i + 1) as int).drop_last() =~= v@.take(i as int));
        assert(v@.take((i + 1) as int).last() == c);
        if c == sep {
            let ghost cv = cur@;
            let ghost old_out = out@;
            out.push(cur);
            cur = Vec::new();
            assert(views(out@) =~= views(old_out).push(cv));
            assert(views(out@).push(cur@) =~= views(old_out).push(cv).push(Seq::<char>::empty()));
        } else {
            let ghost cv = cur@;
            cur.push(c);
            proof {
                let p = views(out@).push(cv);
                assert(p.update(p.len() - 1, p.last().push(c)) =~= views(out@).push(cur@));
            }
        }
        i = i + 1;
    }
    assert(v@.take(v.len() as int) =~= v@);
    let ghost cv = cur@;
    let ghost old_out = out@;
    out.push(cur);
    assert(views(out@) =~= views(old_out).push(cv));
    out
}

/// Reads the entries of `mux.lock` text.
pub fn parse_lock(text: &str) -> (res: Result<Vec<LockEntry>, MuxError>)
    ensures
        match spec_parse_lock(text@) {
            Ok(rows) => res matches Ok(es) && rows_of(es@) == rows,
            Err(n) => res matches Err(e) && e == (MuxError::LockFormat { line: n as usize }),
        },
{
    let v = chars_of(text);
    let ls = split_lines(&v);
    let mut entries: Vec<LockEntry> = Vec::new();
    let mut i: usize = 0;
    assert(views(ls@).take(0) =~= Seq::<Seq<char>>::empty());
    assert(rows_of(entries@) =~= Seq::<LockRow>::empty());
    while i < ls.len()
        invariant
            i <= ls.len(),
            views(ls@) == spec_lines(text@),
            parse_lock_lines(views(ls@).take(i as int)) == Ok::<Seq<LockRow>, nat>(
                rows_of(entries@),
            ),
        decreases ls.len() - i,
    {
        let ghost t = views(ls@).take(i + 1);
        assert(t.drop_last() =~= views(ls@).take(i as int));
        assert(t.last() == ls@[i as int]@);
        let line = &ls[i];
        if line.len() == 0 || line[0] == '#' {
        } else {
            let parts = split_chars(line, '\t');
            if parts.len() != 4 {
                proof {
                    assert(parse_lock_lines(t) == Err::<Seq<LockRow>, nat>((i + 1) as nat));
                    lemma_parse_error_persists(views(ls@), (i + 1) as int);
                }
                return Err(MuxError::LockFormat { line: i + 1 });
            }
            let e = LockEntry {
                name: string_of(&parts[0]),
                source: string_of(&parts[1]),
                target: string_of(&parts[2]),
                include_dir: string_of(&parts[3]),
            };
            let ghost old_entries = entries@;
            entries.push(e);
            assert(rows_of(entries@) =~= rows_of(old_entries).push(
                (parts@[0]@, parts@[1]@, parts@[2]@, parts@[3]@),
            ));
        }
        i = i + 1;
    }
    assert(views(ls@).take(ls.len() as int) =~= views(ls@));
    Ok(entries)
}

fn row_chars(e: &LockEntry) -> (v: Vec<char>)
    ensures
        v@ == row_line(e@),
{
    chars_of(
        String::from_str(e.name.as_str()).concat("\t").concat(e.source.as_str()).concat(
            "\t",
        ).concat(e.target.as_str()).concat("\t").concat(e.include_dir.as_str()).as_str(),
    )
}

/// Writes the text of `mux.lock` for the entries.
pub fn render_lock(entries: &Vec<LockEntry>) -> (text: String)
    ensures
        text@ == spec_render_lock(rows_of(entries@)),
{
    let mut ls: Vec<Vec<char>> = Vec::new();
    ls.push(chars_of("# mux lock v1"));
    ls.push(chars_of("# name\\tsource\\ttarget\\tinclude"));
    let mut i: usize = 0;
    while i < entries.len()
        invariant
            i <= entries.len(),
            views(ls@) == lock_header() + rows_of(entries@).take(i as int).map_values(
                |r: LockRow| row_line(r),
            ),
        decreases entries.len() - i,
    {
        let line = row_chars(&entries[i]);
        let ghost lv = line@;
        let ghost old_ls = ls@;
        ls.push(line);
        assert(views(ls@) =~= views(old_ls).push(lv));
        assert(rows_of(entries@).take(i + 1) =~= rows_of(entries@).take(i as int).push(
            entries@[i as int]@,
        ));
        i = i + 1;
        assert(views(ls@) =~= lock_header() + rows_of(entries@).take(i as int).map_values(
            |r: LockRow| row_line(r),
        ));
    }
    assert(rows_of(entries@).take(entries.len() as int) =~= rows_of(entries@));
    let mut text = String::new();
    push_terminated(&mut text, &ls);
    assert(Seq::<char>::empty() + terminated(views(ls@)) =~= terminated(views(ls@)));
    text
}

fn copy_entry(e: &LockEntry) -> (r: LockEntry)
    ensures
        r@ == e@,
{
    LockEntry {
        name: e.name.clone(),
        source: e.source.clone(),
        target: e.target.clone(),
        include_dir: e.include_dir.clone(),
    }
}

/// Records `entry` in the lock entries, replacing an entry of the same name.
pub fn update_lock_add(entries: &mut Vec<LockEntry>, entry: LockEntry)
    ensures
        rows_of(final(entries)@) == spec_lock_add(rows_of(old(entries)@), entry@),
{
    let ghost rows = rows_of(entries@);
    let mut i: usize = 0;
    while i < entries.len()
        invariant
            i <= entries.len(),
            rows == rows_of(entries@),
            rows == rows_of(old(entries)@),
            first_index(rows.take(i as int), entry@.0) == -1,
        decreases entries.len() - i,
    {
        proof {
            let t = rows.take(i + 1);
            assert(t.drop_last() =~= rows.take(i as int));
            assert(t.last() == entries@[i as int]@);
        }
        if entries[i].name == entry.name {
            proof {
                assert(rows[i as int] == entries@[i as int]@);
                assert(rows[i as int].0 == entry@.0);
                lemma_first_index_prefix(rows, entry@.0, i as int);
            }
            let ghost ev = entry@;
            entries.set(i, entry);
            assert(rows_of(entries@) =~= rows.update(i as int, ev));
            return ;
        }
        i = i + 1;
    }
    assert(rows.take(entries.len() as int) =~= rows);
    let ghost ev = entry@;
    entries.push(entry);
    assert(rows_of(entries@) =~= rows.push(ev));
}

/// A malformed line stops the reading for good.
proof fn lemma_parse_error_persists(ls: Seq<Seq<char>>, k: int)
    requires
        0 <= k <= ls.len(),
        parse_lock_lines(ls.take(k)) is Err,
    ensures
        parse_lock_lines(ls) == parse_lock_lines(ls.take(k)),
    decreases ls.len() - k,
{
    if k == ls.len() {
        assert(ls.take(k) =~= ls);
    } else {
        let t = ls.take(k + 1);
        assert(t.drop_last() =~= ls.take(k));
        lemma_parse_error_persists(ls, k + 1);
    }
}

/// Once the first row with the name sits at `i`, the whole sequence finds it there.
proof fn lemma_first_index_prefix(rows: Seq<LockRow>, name: Seq<char>, i: int)
    requires
        0 <= i < rows.len(),
        first_index(rows.take(i), name) == -1,
        rows[i].0 == name,
    ensures
        first_index(rows, name) == i,
    decreases rows.len(),
{
    if rows.len() == i + 1 {
        assert(rows.drop_last() =~= rows.take(i));
    } else {
        assert(rows.drop_last().take(i) =~= rows.take(i));
        lemma_first_index_prefix(rows.drop_last(), name, i);
    }
}

/// Drops the entries of the given name; reports whether any was dropped.
pub fn update_lock_remove(entries: &mut Vec<LockEntry>, name: &str) -> (removed: bool)
    ensures
        rows_of(final(entries)@) == spec_lock_remove(rows_of(old(entries)@), name@),
        removed == (rows_of(final(entries)@).len() != old(entries)@.len()),
{
    let ghost rows = rows_of(entries@);
    let target = String::from_str(name);
    let mut kept: Vec<LockEntry> = Vec::new();
    let mut i: usize = 0;
    while i < entries.len()
        invariant
            i <= entries.len(),
            rows == rows_of(entries@),
            target@ == name@,
            rows_of(kept@) == spec_lock_remove(rows.take(i as int), name@),
        decreases entries.len() - i,
    {
        proof {
            let t = rows.take(i + 1);
            assert(t.drop_last() =~= rows.take(i as int));
            assert(t.last() == entries@[i as int]@);
        }
        if entries[i].name != target {
            let e = copy_entry(&entries[i]);
            let ghost old_kept = kept@;
            let ghost ev = e@;
            kept.push(e);
            assert(rows_of(kept@) =~= rows_of(old_kept).push(ev));
        }
        i = i + 1;
    }
    assert(rows.take(entries.len() as int) =~= rows);
    let before = entries.len();
    *entries = kept;
    entries.len() != before
}

} // verus!

verus! {

/// A column value that survives the lock file format: no tab, no line break.
pub open spec fn lock_field_ok(f: Seq<char>) -> bool {
    no_break(f) && !f.contains('\t')
}

/// A row that reads back as written: four clean columns, and a name that does
/// not start with `#` (which would make the line a comment).
pub open spec fn lock_row_ok(r: LockRow) -> bool {
    &&& lock_field_ok(r.0)
    &&& lock_field_ok(r.1)
    &&& lock_field_ok(r.2)
    &&& lock_field_ok(r.3)
    &&& !(r.0.len() > 0 && r.0[0] == '#')
}

proof fn lemma_row_line_split(r: LockRow)
    requires
        lock_row_ok(r),
    ensures
        split_on(row_line(r), '\t') == seq![r.0, r.1, r.2, r.3],
        no_break(row_line(r)),
        !is_ignored_line(row_line(r)),
{
    reveal_strlit("\t");
    let tab = "\t"@;
    assert(tab =~= seq!['\t']);
    lemma_split_no_sep(r.0, '\t');
    lemma_split_no_sep(r.1, '\t');
    lemma_split_no_sep(r.2, '\t');
    lemma_split_no_sep(r.3, '\t');
    lemma_split_around(r.0, r.1, '\t');
    let a = r.0 + tab + r.1;
    lemma_split_around(a, r.2, '\t');
    let b = a + tab + r.2;
    lemma_split_around(b, r.3, '\t');
    assert(split_on(row_line(r), '\t') =~= seq![r.0, r.1, r.2, r.3]);
    assert(no_break(tab));
    lemma_no_break_concat(r.0, tab);
    lemma_no_break_concat(r.0 + tab, r.1);
    lemma_no_break_concat(a, tab);
    lemma_no_break_concat(a + tab, r.2);
    lemma_no_break_concat(b, tab);
    lemma_no_break_concat(b + tab, r.3);
    if r.0.len() > 0 {
        assert(row_line(r)[0] == r.0[0]);
    } else {
        assert(row_line(r)[0] == '\t');
    }
}

proof fn lemma_parse_rows(rows: Seq<LockRow>, k: int)
    requires
        0 <= k <= rows.len(),
        forall|i: int| 0 <= i < rows.len() ==> lock_row_ok(#[trigger] rows[i]),
    ensures
        parse_lock_lines(lock_header() + rows.take(k).map_values(|r: LockRow| row_line(r)))
            == Ok::<Seq<LockRow>, nat>(rows.take(k)),
    decreases k,
{
    reveal_strlit("# mux lock v1");
    reveal_strlit("# name\\tsource\\ttarget\\tinclude");
    let ls = lock_header() + rows.take(k).map_values(|r: LockRow| row_line(r));
    if k == 0 {
        assert(ls =~= lock_header());
        let h = lock_header();
        assert(h.drop_last() =~= seq![h[0]]);
        assert(seq![h[0]].drop_last() =~= Seq::<Seq<char>>::empty());
        assert(seq![h[0]].last() == h[0]);
        assert(is_ignored_line(h[0]));
        assert(is_ignored_line(h[1]));
        assert(h.last() == h[1]);
        assert(parse_lock_lines(Seq::<Seq<char>>::empty()) == Ok::<Seq<LockRow>, nat>(
            Seq::empty(),
        ));
        assert(parse_lock_lines(seq![h[0]]) == Ok::<Seq<LockRow>, nat>(Seq::empty()));
        assert(rows.take(0) =~= Seq::<LockRow>::empty());
    } else {
        lemma_parse_rows(rows, k - 1);
        assert(ls.drop_last() =~= lock_header() + rows.take(k - 1).map_values(
            |r: LockRow| row_line(r),
        ));
        assert(ls.last() == row_line(rows[k - 1]));
        lemma_row_line_split(rows[k - 1]);
        let r = rows[k - 1];
        let p = seq![r.0, r.1, r.2, r.3];
        assert(p.len() == 4 && p[0] == r.0 && p[1] == r.1 && p[2] == r.2 && p[3] == r.3);
        assert(parse_lock_line(ls.last()) == Some(r));
        assert(rows.take(k - 1).push(rows[k - 1]) =~= rows.take(k));
    }
}

/// Reading back a written lock file gives the same entries, in order, for
/// entries whose columns hold no tab or line break and whose names do not
/// start with `#`.
pub proof fn lemma_lock_roundtrip(rows: Seq<LockRow>)
    requires
        forall|i: int| 0 <= i < rows.len() ==> lock_row_ok(#[trigger] rows[i]),
    ensures
        spec_parse_lock(spec_render_lock(rows)) == Ok::<Seq<LockRow>, nat>(rows),
{
    reveal_strlit("# mux lock v1");
    reveal_strlit("# name\\tsource\\ttarget\\tinclude");
    let all = lock_header() + rows.map_values(|r: LockRow| row_line(r));
    assert forall|i: int| 0 <= i < all.len() implies no_break(#[trigger] all[i]) by {
        if i >= 2 {
            assert(all[i] == row_line(rows[i - 2]));
            lemma_row_line_split(rows[i - 2]);
        }
    }
    lemma_plain_lines(all);
    lemma_lines_terminated(all);
    lemma_parse_rows(rows, rows.len() as int);
    assert(rows.take(rows.len() as int) =~= rows);
}

proof fn lemma_remove_update(rows: Seq<LockRow>, i: int, r: LockRow)
    requires
        0 <= i < rows.len(),
        rows[i].0 == r.0,
    ensures
        spec_lock_remove(rows.update(i, r), r.0) == spec_lock_remove(rows, r.0),
    decreases rows.len(),
{
    let u = rows.update(i, r);
    if i == rows.len() - 1 {
        assert(u.drop_last() =~= rows.drop_last());
    } else {
        assert(u.drop_last() =~= rows.drop_last().update(i, r));
        lemma_remove_update(rows.drop_last(), i, r);
    }
}

/// Removing a name right after recording an entry under it leaves the lock
/// entries as removing that name alone would: `mux remove` undoes the
/// `mux.lock` change of `mux add`.
pub proof fn lemma_lock_remove_undoes_add(rows: Seq<LockRow>, r: LockRow)
    ensures
        spec_lock_remove(spec_lock_add(rows, r), r.0) == spec_lock_remove(rows, r.0),
{
    let i = first_index(rows, r.0);
    lemma_first_index(rows, r.0);
    if i >= 0 {
        lemma_remove_update(rows, i, r);
    } else {
        assert(rows.push(r).drop_last() =~= rows);
    }
}

pub proof fn lemma_first_index(rows: Seq<LockRow>, name: Seq<char>)
    ensures
        -1 <= first_index(rows, name) < rows.len(),
        first_index(rows, name) >= 0 ==> rows[first_index(rows, name)].0 == name,
        first_index(rows, name) == -1 ==> forall|j: int|
            0 <= j < rows.len() ==> (#[trigger] rows[j]).0 != name,
    decreases rows.len(),
{
    if rows.len() > 0 {
        lemma_first_index(rows.drop_last(), name);
        assert forall|j: int| 0 <= j < rows.len() - 1 implies rows.drop_last()[j] == rows[j] by {}
    }
}

/// Recording the same entry twice is the same as recording it once.
pub proof fn lemma_lock_add_idempotent(rows: Seq<LockRow>, r: LockRow)
    ensures
        spec_lock_add(spec_lock_add(rows, r), r) == spec_lock_add(rows, r),
{
    lemma_first_index(rows, r.0);
    let i = first_index(rows, r.0);
    let once = spec_lock_add(rows, r);
    if i >= 0 {
        lemma_first_index_update(rows, i, r);
        assert(once.update(i, r) =~= once);
    } else {
        lemma_first_index_push(rows, r);
        assert(once.update(rows.len() as int, r) =~= once);
    }
}

proof fn lemma_first_index_update(rows: Seq<LockRow>, i: int, r: LockRow)
    requires
        first_index(rows, r.0) == i,
        0 <= i < rows.len(),
    ensures
        first_index(rows.update(i, r), r.0) == i,
    decreases rows.len(),
{
    lemma_first_index(rows, r.0);
    let u = rows.update(i, r);
    if i == rows.len() - 1 {
        assert(u.drop_last() =~= rows.drop_last());
        lemma_first_index(rows.drop_last(), r.0);
    } else {
        assert(u.drop_last() =~= rows.drop_last().update(i, r));
        lemma_first_index(rows.drop_last(), r.0);
        lemma_first_index_update(rows.drop_last(), i, r);
    }
}

proof fn lemma_first_index_push(rows: Seq<LockRow>, r: LockRow)
    requires
        first_index(rows, r.0) == -1,
    ensures
        first_index(rows.push(r), r.0) == rows.len(),
{
    assert(rows.push(r).drop_last() =~= rows);
}

/// After removing a name, no entry carries it, and the removal reports a
/// change exactly when some entry carried it.
pub proof fn lemma_lock_remove_effect(rows: Seq<LockRow>, name: Seq<char>)
    ensures
        forall|j: int|
            0 <= j < spec_lock_remove(rows, name).len() ==> (#[trigger] spec_lock_remove(
                rows,
                name,
            )[j]).0 != name,
        (spec_lock_remove(rows, name).len() != rows.len()) == (exists|j: int|
            0 <= j < rows.len() && (#[trigger] rows[j]).0 == name),
        spec_lock_remove(rows, name).len() <= rows.len(),
    decreases rows.len(),
{
    if rows.len() > 0 {
        let d = rows.drop_last();
        lemma_lock_remove_effect(d, name);
        if exists|j: int| 0 <= j < d.len() && (#[trigger] d[j]).0 == name {
            let j = choose|j: int| 0 <= j < d.len() && (#[trigger] d[j]).0 == name;
            assert(rows[j] == d[j]);
        }
        if exists|j: int| 0 <= j < rows.len() && (#[trigger] rows[j]).0 == name {
            let j = choose|j: int| 0 <= j < rows.len() && (#[trigger] rows[j]).0 == name;
            if j < d.len() {
                assert(d[j] == rows[j]);
            }
        }
    }
}

} // verus!

verus! {

/// Removing a name keeps exactly the entries of other names, unchanged and in
/// their order (what `Vec::retain` with `name != n` leaves).
pub proof fn lemma_lock_remove_is_filter(rows: Seq<LockRow>, name: Seq<char>)
    ensures
        spec_lock_remove(rows, name) == rows.filter(|r: LockRow| r.0 != name),
    decreases rows.len(),
{
    reveal_with_fuel(Seq::<_>::filter, 1);
    if rows.len() > 0 {
        lemma_lock_remove_is_filter(rows.drop_last(), name);
    }
}

/// After recording an entry, the lock holds it, and it is the first entry of
/// its name; the other entries keep their order, and there is at most one more.
pub proof fn lemma_lock_add_records(rows: Seq<LockRow>, r: LockRow)
    ensures
        spec_lock_add(rows, r).contains(r),
        first_index(spec_lock_add(rows, r), r.0) >= 0,
        spec_lock_add(rows, r)[first_index(spec_lock_add(rows, r), r.0)] == r,
        spec_lock_add(rows, r).len() == rows.len() || spec_lock_add(rows, r).len() == rows.len()
            + 1,
        spec_lock_remove(spec_lock_add(rows, r), r.0) == spec_lock_remove(rows, r.0),
{
    lemma_first_index(rows, r.0);
    let i = first_index(rows, r.0);
    let out = spec_lock_add(rows, r);
    if i >= 0 {
        lemma_first_index_update(rows, i, r);
        assert(out[i] == r);
    } else {
        lemma_first_index_push(rows, r);
        assert(out[rows.len() as int] == r);
    }
    lemma_lock_remove_undoes_add(rows, r);
}

} // verus!

verus! {

/// A malformed line is reported by its 1-based number: after well-formed
/// entries written by `render_lock` (two header lines and one line per entry),
/// a line that is not a comment and does not hold four columns is reported as
/// line `entries + 3`.
pub proof fn lemma_lock_error_line(rows: Seq<LockRow>, bad: Seq<char>, rest: Seq<char>)
    requires
        forall|i: int| 0 <= i < rows.len() ==> lock_row_ok(#[trigger] rows[i]),
        no_break(bad),
        !is_ignored_line(bad),
        split_on(bad, '\t').len() != 4,
    ensures
        spec_parse_lock(spec_render_lock(rows) + bad + "\n"@ + rest) == Err::<Seq<LockRow>, nat>(
            (rows.len() + 3) as nat,
        ),
{
    reveal_strlit("# mux lock v1");
    reveal_strlit("# name\\tsource\\ttarget\\tinclude");
    reveal_strlit("\n");
    let all = lock_header() + rows.map_values(|r: LockRow| row_line(r));
    assert forall|i: int| 0 <= i < all.len() implies no_break(#[trigger] all[i]) by {
        if i >= 2 {
            assert(all[i] == row_line(rows[i - 2]));
            lemma_row_line_split(rows[i - 2]);
        }
    }
    let ext = all.push(bad);
    assert forall|i: int| 0 <= i < ext.len() implies no_break(#[trigger] ext[i]) by {
        if i < all.len() {
            assert(ext[i] == all[i]);
        }
    }
    lemma_plain_lines(ext);
    lemma_terminated_concat(all, seq![bad]);
    assert(seq![bad].drop_first() =~= Seq::<Seq<char>>::empty());
    assert(seq![bad][0] == bad);
    assert(terminated(Seq::<Seq<char>>::empty()) == Seq::<char>::empty());
    assert(terminated(seq![bad]) =~= bad + "\n"@);
    assert(all + seq![bad] =~= ext);
    let head = terminated(ext);
    assert(spec_render_lock(rows) + bad + "\n"@ =~= head);
    assert(head.len() > 0 && head.last() == '\n');
    lemma_lines_terminated(ext);
    crate::text::lemma_lines_after_newline(head, rest);
    let ls = spec_lines(head + rest);
    assert(ls.take(ext.len() as int) =~= ext);
    lemma_parse_rows(rows, rows.len() as int);
    assert(rows.take(rows.len() as int) =~= rows);
    assert(ext.drop_last() =~= all);
    assert(parse_lock_lines(ext) == Err::<Seq<LockRow>, nat>(ext.len()));
    lemma_parse_error_persists(ls, ext.len() as int);
}

} // verus!

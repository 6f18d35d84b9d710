use vstd::prelude::*;
use crate::model::{LectureData, Section};
use crate::section::{SectionLines, SectionView};

verus! {

/// Title given to a section that has no line at the title position.
pub open spec fn untitled() -> Seq<char> {
    "Untitled Section"@
}

/// A reconstructed section as values: its title and its body lines.
pub open spec fn section_value(s: Section) -> (Seq<char>, Seq<Seq<char>>) {
    (s.name@, s.lines@.map_values(|l: String| l@))
}

/// A reconstructed lecture as values: its sections in order.
pub open spec fn lecture_value(d: LectureData) -> Seq<(Seq<char>, Seq<Seq<char>>)> {
    d.sections@.map_values(|s: Section| section_value(s))
}

/// How a stored section reads as a document section: the line at the title position
/// (the first entry of a titled section) is the title, the rest is the body in order;
/// without such a line the title is the fallback and every line is body.
pub open spec fn section_data(v: SectionView) -> (Seq<char>, Seq<Seq<char>>) {
    if v.titled {
        (v.entries[0], v.entries.drop_first())
    } else {
        (untitled(), v.entries)
    }
}

/// Builds the document section for one stored section.
pub fn assemble_section(sec: &SectionLines) -> (r: Section)
    requires
        sec@.entries.len() > 0,
    ensures
        section_value(r) == section_data(sec@),
{
    let start: usize = if sec.titled {
        1
    } else {
        0
    };
    let name = if sec.titled {
        sec.entries[0].clone()
    } else {
        String::from_str("Untitled Section")
    };
    let ghost all = sec@.entries;
    let mut lines: Vec<String> = Vec::new();
    let mut j: usize = start;
    while j < sec.entries.len()
        invariant
            start <= j <= sec.entries.len(),
            all == sec@.entries,
            all.len() == sec.entries.len(),
            lines@.map_values(|l: String| l@) =~= all.subrange(start as int, j as int),
        decreases sec.entries.len() - j,
    {
        let line = sec.entries[j].clone();
        let ghost prev = lines@;
        lines.push(line);
        assert(lines@ == prev.push(line));
        assert(lines@.map_values(|l: String| l@) =~= prev.map_values(|l: String| l@).push(line@));
        assert(all[j as int] == line@);
        j = j + 1;
    }
    let r = Section { name, lines };
    assert(all.subrange(start as int, all.len() as int) =~= (if sec.titled {
        all.drop_first()
    } else {
        all
    }));
    r
}

/// A flat row as values: (section id, position, content).
pub type FlatRow = (u32, int, Seq<char>);

/// Exec rows as values.
pub open spec fn flat_values(v: Seq<(u32, i64, String)>) -> Seq<FlatRow> {
    v.map_values(|r: (u32, i64, String)| (r.0, r.1 as int, r.2@))
}

/// Row `a` sorts strictly before row `b` by (section id, position).
pub open spec fn key_before(a: FlatRow, b: FlatRow) -> bool {
    a.0 < b.0 || (a.0 == b.0 && a.1 < b.1)
}

/// No two rows share a (section id, position) key.
pub open spec fn keys_distinct(s: Seq<FlatRow>) -> bool {
    forall|i: int, j: int|
        0 <= i < s.len() && 0 <= j < s.len() && i != j ==> !(s[i].0 == s[j].0 && s[i].1 == s[j].1)
}

/// Rows in strictly ascending (section id, position) order.
pub open spec fn strictly_sorted(s: Seq<FlatRow>) -> bool {
    forall|i: int, j: int| 0 <= i < j < s.len() ==> key_before(s[i], s[j])
}

/// `a` holds the same rows as `b`.
pub open spec fn same_rows(a: Seq<FlatRow>, b: Seq<FlatRow>) -> bool {
    forall|x: FlatRow| a.contains(x) <==> b.contains(x)
}

/// Runs of consecutive rows with equal section id.
pub open spec fn groups(s: Seq<FlatRow>) -> Seq<Seq<FlatRow>>
    decreases s.len(),
{
    if s.len() == 0 {
        Seq::empty()
    } else {
        let g = groups(s.drop_last());
        if g.len() > 0 && g.last().len() > 0 && g.last().last().0 == s.last().0 {
            g.update(g.len() - 1, g.last().push(s.last()))
        } else {
            g.push(seq![s.last()])
        }
    }
}

/// How one group of position-ordered rows reads as a section: a first row at the title
/// position gives the title, and the other rows the body; otherwise the fallback title
/// and every row as body.
pub open spec fn group_section(g: Seq<FlatRow>) -> (Seq<char>, Seq<Seq<char>>) {
    if g.len() > 0 && g[0].1 == -1 {
        (g[0].2, g.drop_first().map_values(|r: FlatRow| r.2))
    } else {
        (untitled(), g.map_values(|r: FlatRow| r.2))
    }
}

/// The document that a set of rows reconstructs to, given those rows in key order.
pub open spec fn assembled(sorted: Seq<FlatRow>) -> Seq<(Seq<char>, Seq<Seq<char>>)> {
    groups(sorted).map_values(|g: Seq<FlatRow>| group_section(g))
}

/// Sorts rows by (section id, position).
fn sort_rows(rows: Vec<(u32, i64, String)>) -> (r: Vec<(u32, i64, String)>)
    requires
        keys_distinct(flat_values(rows@)),
    ensures
        strictly_sorted(flat_values(r@)),
        same_rows(flat_values(r@), flat_values(rows@)),
{
    let ghost input = flat_values(rows@);
    let mut rest = rows;
    let mut out: Vec<(u32, i64, String)> = Vec::new();
    while rest.len() > 0
        invariant
            strictly_sorted(flat_values(out@)),
            keys_distinct(input),
            forall|x: FlatRow|
                input.contains(x) <==> (flat_values(out@).contains(x) || flat_values(
                    rest@,
                ).contains(x)),
            forall|i: int, j: int|
                0 <= i < out@.len() && 0 <= j < rest@.len() ==> !(#[trigger] flat_values(out@)[i].0
                    == #[trigger] flat_values(rest@)[j].0 && flat_values(out@)[i].1 == flat_values(
                    rest@,
                )[j].1),
            keys_distinct(flat_values(rest@)),
        decreases rest.len(),
    {
        let ghost rest0 = flat_values(rest@);
        let ghost out0 = flat_values(out@);
        let row = rest.pop().unwrap();
        let ghost rv = (row.0, row.1 as int, row.2@);
        assert(rest0 == flat_values(rest@).push(rv));
        assert(rest0.last() == rv);
        let mut j: usize = 0;
        while j < out.len() && (out[j].0 < row.0 || (out[j].0 == row.0 && out[j].1 < row.1))
            invariant
                j <= out.len(),
                out0 == flat_values(out@),
                rv == (row.0, row.1 as int, row.2@),
                forall|i: int| 0 <= i < j ==> key_before(#[trigger] out0[i], rv),
            decreases out.len() - j,
        {
            assert(out0[j as int] == (out[j as int].0, out[j as int].1 as int, out[j as int].2@));
            j = j + 1;
        }
        assert forall|i: int| j <= i < out0.len() implies key_before(rv, #[trigger] out0[i]) by {
            assert(out0[i].0 != rv.0 || out0[i].1 != rv.1);
            if i > j {
                assert(key_before(out0[j as int], out0[i]));
            }
        }
        out.insert(j, row);
        assert(flat_values(out@) =~= out0.insert(j as int, rv));
        let ghost out1 = flat_values(out@);
        let ghost rest1 = flat_values(rest@);
        assert(rest1 =~= rest0.drop_last());
        assert forall|a: int, b: int|
            0 <= a < rest1.len() && 0 <= b < rest1.len() && a != b implies !(rest1[a].0
                == rest1[b].0 && rest1[a].1 == rest1[b].1) by {
            assert(rest1[a] == rest0[a] && rest1[b] == rest0[b]);
        }
        assert forall|a: int, b: int|
            0 <= a < out@.len() && 0 <= b < rest@.len() implies !(#[trigger] flat_values(out@)[a].0
                == #[trigger] flat_values(rest@)[b].0 && flat_values(out@)[a].1 == flat_values(
                rest@,
            )[b].1) by {
            assert(rest1[b] == rest0[b]);
            if a < j {
                assert(out1[a] == out0[a]);
            } else if a > j {
                assert(out1[a] == out0[a - 1]);
            } else {
                assert(out1[a] == rest0[rest0.len() - 1]);
            }
        }
        assert forall|x: FlatRow|
            input.contains(x) <==> (flat_values(out@).contains(x) || flat_values(rest@).contains(x)) by {
            if out0.contains(x) {
                let i = choose|i: int| 0 <= i < out0.len() && out0[i] == x;
                let ii = if i < j { i } else { i + 1 };
                assert(flat_values(out@)[ii] == x);
            }
            if rest0.contains(x) {
                let i = choose|i: int| 0 <= i < rest0.len() && rest0[i] == x;
                if i < rest0.len() - 1 {
                    assert(flat_values(rest@)[i] == x);
                } else {
                    assert(flat_values(out@)[j as int] == x);
                }
            }
            if flat_values(out@).contains(x) {
                let i = choose|i: int| 0 <= i < flat_values(out@).len() && flat_values(out@)[i] == x;
                if i < j {
                    assert(out0[i] == x);
                } else if i > j {
                    assert(out0[i - 1] == x);
                } else {
                    assert(rest0[rest0.len() - 1] == x);
                }
            }
            if flat_values(rest@).contains(x) {
                let i = choose|i: int| 0 <= i < flat_values(rest@).len() && flat_values(rest@)[i] == x;
                assert(rest0[i] == x);
            }
        }
    }
    assert forall|x: FlatRow| flat_values(out@).contains(x) <==> input.contains(x) by {
        if flat_values(rest@).contains(x) {
            let i = choose|i: int| 0 <= i < flat_values(rest@).len() && flat_values(rest@)[i] == x;
        }
    }
    out
}

/// Builds the section for one group of rows that share a section id, in position order.
fn group_to_section(g: &Vec<(u32, i64, String)>) -> (r: Section)
    requires
        g@.len() > 0,
    ensures
        section_value(r) == group_section(flat_values(g@)),
{
    let ghost gv = flat_values(g@);
    let titled = g[0].1 == -1;
    let start: usize = if titled {
        1
    } else {
        0
    };
    let name = if titled {
        g[0].2.clone()
    } else {
        String::from_str("Untitled Section")
    };
    let mut lines: Vec<String> = Vec::new();
    let mut j: usize = start;
    while j < g.len()
        invariant
            start <= j <= g.len(),
            gv == flat_values(g@),
            lines@.map_values(|l: String| l@) =~= gv.subrange(start as int, j as int).map_values(
                |r: FlatRow| r.2,
            ),
        decreases g.len() - j,
    {
        let line = g[j].2.clone();
        let ghost prev = lines@;
        lines.push(line);
        assert(lines@ == prev.push(line));
        assert(gv[j as int].2 == line@);
        assert(gv.subrange(start as int, j + 1) =~= gv.subrange(start as int, j as int).push(gv[j as int]));
        assert(lines@.map_values(|l: String| l@) =~= prev.map_values(|l: String| l@).push(line@));
        j = j + 1;
    }
    assert(gv.subrange(start as int, gv.len() as int) =~= (if titled {
        gv.drop_first()
    } else {
        gv
    }));
    Section { name, lines }
}

/// Reconstructs a document from flat rows in any order: the rows are put in (section id,
/// position) order, grouped by section id, and each group becomes a section whose title
/// is its line at the title position, or the fallback title when it has none.
pub fn assemble_lecture(rows: Vec<(u32, i64, String)>) -> (r: LectureData)
    requires
        keys_distinct(flat_values(rows@)),
    ensures
        exists|sorted: Seq<FlatRow>|
            strictly_sorted(sorted) && same_rows(sorted, flat_values(rows@))
                && lecture_value(r) == #[trigger] assembled(sorted),
{
    let sorted = sort_rows(rows);
    let ghost sv = flat_values(sorted@);
    let mut sections: Vec<Section> = Vec::new();
    let mut cur: Vec<(u32, i64, String)> = Vec::new();
    let mut i: usize = 0;
    while i < sorted.len()
        invariant
            i <= sorted.len(),
            sv == flat_values(sorted@),
            i == 0 ==> cur@.len() == 0 && groups(sv.take(i as int)).len() == 0 && sections@.len()
                == 0,
            i > 0 ==> cur@.len() > 0 && groups(sv.take(i as int)).len() > 0 && flat_values(cur@)
                == groups(sv.take(i as int)).last() && sections@.map_values(
                |s: Section| section_value(s),
            ) =~= groups(sv.take(i as int)).drop_last().map_values(
                |g: Seq<FlatRow>| group_section(g),
            ),
        decreases sorted.len() - i,
    {
        let ghost g0 = groups(sv.take(i as int));
        let ghost x = sv[i as int];
        assert(sv.take(i + 1).drop_last() =~= sv.take(i as int));
        assert(sv.take(i + 1).last() == x);
        let item = (sorted[i].0, sorted[i].1, sorted[i].2.clone());
        assert(x == (item.0, item.1 as int, item.2@));
        if i > 0 && cur[cur.len() - 1].0 == item.0 {
            let ghost c0 = flat_values(cur@);
            assert(c0.last().0 == cur@[cur@.len() - 1].0);
            cur.push(item);
            assert(flat_values(cur@) =~= c0.push(x));
            assert(groups(sv.take(i + 1)) == g0.update(g0.len() - 1, g0.last().push(x)));
            assert(groups(sv.take(i + 1)).drop_last() =~= g0.drop_last());
        } else {
            if i > 0 {
                let ghost c0 = flat_values(cur@);
                assert(c0.last().0 == cur@[cur@.len() - 1].0);
                let part = group_to_section(&cur);
                let ghost prev = sections@;
                sections.push(part);
                assert(sections@.map_values(|s: Section| section_value(s)) =~= prev.map_values(
                    |s: Section| section_value(s),
                ).push(section_value(part)));
                assert(g0.drop_last().push(g0.last()) =~= g0);
            }
            cur = Vec::new();
            cur.push(item);
            assert(flat_values(cur@) =~= seq![x]);
            assert(groups(sv.take(i + 1)) == g0.push(seq![x]));
            assert(groups(sv.take(i + 1)).drop_last() =~= g0);
        }
        i = i + 1;
    }
    assert(sv.take(i as int) =~= sv);
    if i > 0 {
        let ghost g0 = groups(sv);
        let part = group_to_section(&cur);
        let ghost prev = sections@;
        sections.push(part);
        assert(sections@.map_values(|s: Section| section_value(s)) =~= prev.map_values(
            |s: Section| section_value(s),
        ).push(section_value(part)));
        assert(g0.drop_last().push(g0.last()) =~= g0);
    }
    let r = LectureData { sections };
    assert(lecture_value(r) =~= assembled(sv));
    r
}

} // verus!

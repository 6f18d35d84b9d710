use vstd::prelude::*;
use crate::assemble::{
    section_data, untitled, groups, group_section, assembled, strictly_sorted, FlatRow,
};
use crate::model::{Positions, inserted, deleted, body_is, gap_free};
use crate::section::{SectionView, positions, first_pos};
use crate::store::{
    LineStore, RowView, lines_of, has_section, doc_rows, doc_sections, section_rows, sections_wf,
    lemma_lines_of_at, positions_fit,
};

verus! {

/// In every well-formed store, and so after any sequence of inserts and deletes, each
/// section's body positions are exactly `0..n` for some `n >= 0`, and nothing lies
/// below the title position.
pub proof fn lemma_gap_free(store: &LineStore, lid: Seq<char>, secid: u32)
    requires
        store.wf(),
    ensures
        gap_free(store.lines(lid, secid)),
{
    let s = store.sections_view();
    let m = lines_of(s, lid, secid);
    if has_section(s, lid, secid) {
        let i = choose|i: int| 0 <= i < s.len() && s[i].lid == lid && s[i].secid == secid;
        let v = s[i];
        assert(v.entries.len() > 0);
        let n = first_pos(v.titled) + v.entries.len();
        assert(body_is(m, n));
    } else {
        assert(body_is(m, 0));
    }
}

/// Inserting at `p` into a body `0..n` gives the body `0..n+1`: the new content sits at
/// `p`, lines below `p` keep their positions, and lines from `p` on move to the next one.
pub proof fn lemma_insert_shift(m: Positions, n: int, p: int, c: Seq<char>)
    requires
        n >= 0,
        body_is(m, n),
        0 <= p <= n,
    ensures
        body_is(inserted(m, p, c), n + 1),
        inserted(m, p, c)[p] == c,
        forall|q: int| 0 <= q < p ==> #[trigger] inserted(m, p, c)[q] == m[q],
        forall|q: int| p < q <= n ==> #[trigger] inserted(m, p, c)[q] == m[q - 1],
        inserted(m, p, c).contains_key(-1) == m.contains_key(-1),
        m.contains_key(-1) ==> inserted(m, p, c)[-1] == m[-1],
{
    let r = inserted(m, p, c);
    assert forall|q: int| q >= 0 implies (r.contains_key(q) <==> q < n + 1) by {
        if q >= 0 {
            assert(m.contains_key(q) <==> q < n);
            assert(q >= 1 ==> (m.contains_key(q - 1) <==> q - 1 < n));
        }
    }
}

/// Deleting `p` from a body `0..n` gives the body `0..n-1`: lines below `p` keep their
/// positions and lines after `p` move to the previous one.
pub proof fn lemma_delete_shift(m: Positions, n: int, p: int)
    requires
        body_is(m, n),
        0 <= p < n,
    ensures
        body_is(deleted(m, p), n - 1),
        forall|q: int| 0 <= q < p ==> #[trigger] deleted(m, p)[q] == m[q],
        forall|q: int| p <= q < n - 1 ==> #[trigger] deleted(m, p)[q] == m[q + 1],
        deleted(m, p).contains_key(-1) == m.contains_key(-1),
        m.contains_key(-1) ==> deleted(m, p)[-1] == m[-1],
{
    let r = deleted(m, p);
    assert forall|q: int| q >= 0 implies (r.contains_key(q) <==> q < n - 1) by {
        assert(m.contains_key(q) <==> q < n);
        assert(m.contains_key(q + 1) <==> q + 1 < n);
    }
}

/// A section with a line at the title position reads as that line's content for its
/// title and the lines at `0, 1, ..` in position order for its body.
pub proof fn lemma_title_resolution(v: SectionView)
    requires
        v.entries.len() > 0,
        positions(v).contains_key(-1),
    ensures
        section_data(v).0 == positions(v)[-1],
        section_data(v).1 == Seq::new(
            (v.entries.len() - 1) as nat,
            |i: int| positions(v)[i],
        ),
        body_is(positions(v), v.entries.len() - 1),
{
    assert(v.titled);
    assert(section_data(v).1 =~= Seq::new((v.entries.len() - 1) as nat, |i: int| positions(v)[i]));
}

/// A section without a line at the title position reads as the fallback title and every
/// line in position order for its body.
pub proof fn lemma_missing_title(v: SectionView)
    requires
        v.entries.len() > 0,
        !positions(v).contains_key(-1),
    ensures
        section_data(v).0 == untitled(),
        section_data(v).1 == Seq::new(v.entries.len(), |i: int| positions(v)[i]),
        body_is(positions(v), v.entries.len() as int),
{
    assert(!v.titled);
    assert(section_data(v).1 =~= Seq::new(v.entries.len(), |i: int| positions(v)[i]));
}

/// Row `a` comes before row `b` in (section id, position) order.
pub open spec fn row_before(a: RowView, b: RowView) -> bool {
    a.0 < b.0 || (a.0 == b.0 && a.1 < b.1)
}

/// `row` is line `j` of some section `i` of lecture `lid`.
spec fn row_from(s: Seq<SectionView>, lid: Seq<char>, row: RowView) -> bool {
    exists|i: int, j: int|
        0 <= i < s.len() && s[i].lid == lid && 0 <= j < s[i].entries.len() && row
            == #[trigger] section_rows(s[i])[j]
}

proof fn lemma_wf_drop_last(s: Seq<SectionView>)
    requires
        sections_wf(s),
        s.len() > 0,
    ensures
        sections_wf(s.drop_last()),
{
    let t = s.drop_last();
    assert forall|a: int, b: int|
        0 <= a < t.len() && 0 <= b < t.len() && a != b implies !(t[a].lid == t[b].lid
            && t[a].secid == t[b].secid) by {
        assert(t[a] == s[a] && t[b] == s[b]);
    }
    assert forall|a: int| 0 <= a < t.len() implies #[trigger] t[a].entries.len() > 0 by {
        assert(t[a] == s[a]);
    }
    assert forall|a: int| 0 <= a < t.len() implies #[trigger] positions_fit(t[a]) by {
        assert(t[a] == s[a]);
    }
    assert forall|a: int, b: int| 0 <= a < b < t.len() implies t[a].secid <= t[b].secid by {
        assert(t[a] == s[a] && t[b] == s[b]);
    }
}

proof fn lemma_rows_origin(s: Seq<SectionView>, lid: Seq<char>)
    ensures
        forall|k: int|
            0 <= k < doc_rows(s, lid).len() ==> row_from(s, lid, #[trigger] doc_rows(s, lid)[k]),
    decreases s.len(),
{
    if s.len() > 0 {
        let t = s.drop_last();
        let n = s.len() - 1;
        lemma_rows_origin(t, lid);
        let rt = doc_rows(t, lid);
        let r = doc_rows(s, lid);
        assert forall|k: int| 0 <= k < r.len() implies row_from(s, lid, #[trigger] r[k]) by {
            if k < rt.len() {
                assert(r[k] == rt[k]);
                assert(row_from(t, lid, rt[k]));
                let (i, j) = choose|i: int, j: int|
                    0 <= i < t.len() && t[i].lid == lid && 0 <= j < t[i].entries.len() && rt[k]
                        == #[trigger] section_rows(t[i])[j];
                assert(t[i] == s[i]);
            } else {
                assert(r[k] == section_rows(s[n])[k - rt.len()]);
            }
        }
    }
}

proof fn lemma_rows_complete(s: Seq<SectionView>, lid: Seq<char>, i: int, j: int)
    requires
        0 <= i < s.len(),
        s[i].lid == lid,
        0 <= j < s[i].entries.len(),
    ensures
        exists|k: int| 0 <= k < doc_rows(s, lid).len() && doc_rows(s, lid)[k] == section_rows(s[i])[j],
    decreases s.len(),
{
    let t = s.drop_last();
    let n = s.len() - 1;
    let rt = doc_rows(t, lid);
    let r = doc_rows(s, lid);
    if i < n {
        assert(t[i] == s[i]);
        lemma_rows_complete(t, lid, i, j);
        let k = choose|k: int| 0 <= k < rt.len() && rt[k] == section_rows(t[i])[j];
        assert(r[k] == rt[k]);
    } else {
        assert(r[rt.len() + j] == section_rows(s[i])[j]);
    }
}

proof fn lemma_rows_sorted(s: Seq<SectionView>, lid: Seq<char>)
    requires
        sections_wf(s),
    ensures
        forall|k1: int, k2: int|
            0 <= k1 < k2 < doc_rows(s, lid).len() ==> row_before(
                #[trigger] doc_rows(s, lid)[k1],
                #[trigger] doc_rows(s, lid)[k2],
            ),
    decreases s.len(),
{
    if s.len() > 0 {
        let t = s.drop_last();
        let n = s.len() - 1;
        lemma_wf_drop_last(s);
        lemma_rows_sorted(t, lid);
        lemma_rows_origin(t, lid);
        let rt = doc_rows(t, lid);
        let r = doc_rows(s, lid);
        if s.last().lid == lid {
            let sr = section_rows(s.last());
            assert forall|k1: int, k2: int| 0 <= k1 < k2 < r.len() implies row_before(
                #[trigger] r[k1],
                #[trigger] r[k2],
            ) by {
                if k2 < rt.len() {
                    assert(r[k1] == rt[k1] && r[k2] == rt[k2]);
                } else if k1 >= rt.len() {
                    assert(r[k1] == sr[k1 - rt.len()] && r[k2] == sr[k2 - rt.len()]);
                } else {
                    assert(r[k1] == rt[k1]);
                    assert(r[k2] == sr[k2 - rt.len()]);
                    assert(row_from(t, lid, rt[k1]));
                    let (i, j) = choose|i: int, j: int|
                        0 <= i < t.len() && t[i].lid == lid && 0 <= j < t[i].entries.len() && rt[k1]
                            == #[trigger] section_rows(t[i])[j];
                    assert(t[i] == s[i]);
                    assert(s[i].secid <= s[n].secid);
                    assert(s[i].secid != s[n].secid);
                }
            }
        } else {
            assert(r == rt);
        }
    }
}

/// Fetching a lecture returns exactly its stored lines, each once, in ascending
/// (section id, position) order; its text (`get_lecture`) is their contents in that
/// order, each followed by a line terminator.
pub proof fn lemma_fetch_ordered(store: &LineStore, lid: Seq<char>)
    requires
        store.wf(),
    ensures
        forall|k1: int, k2: int|
            0 <= k1 < k2 < doc_rows(store.sections_view(), lid).len() ==> row_before(
                #[trigger] doc_rows(store.sections_view(), lid)[k1],
                #[trigger] doc_rows(store.sections_view(), lid)[k2],
            ),
        forall|k: int|
            0 <= k < doc_rows(store.sections_view(), lid).len() ==> {
                let row = #[trigger] doc_rows(store.sections_view(), lid)[k];
                store.lines(lid, row.0).contains_key(row.1) && store.lines(lid, row.0)[row.1]
                    == row.2
            },
        forall|secid: u32, p: int|
            #[trigger] store.lines(lid, secid).contains_key(p) ==> exists|k: int|
                0 <= k < doc_rows(store.sections_view(), lid).len() && doc_rows(
                    store.sections_view(),
                    lid,
                )[k] == (secid, p, store.lines(lid, secid)[p]),
{
    let s = store.sections_view();
    let r = doc_rows(s, lid);
    lemma_rows_sorted(s, lid);
    lemma_rows_origin(s, lid);
    assert forall|k: int| 0 <= k < r.len() implies {
        let row = #[trigger] r[k];
        store.lines(lid, row.0).contains_key(row.1) && store.lines(lid, row.0)[row.1] == row.2
    } by {
        assert(row_from(s, lid, r[k]));
        let (i, j) = choose|i: int, j: int|
            0 <= i < s.len() && s[i].lid == lid && 0 <= j < s[i].entries.len() && r[k]
                == #[trigger] section_rows(s[i])[j];
        lemma_lines_of_at(s, i);
    }
    assert forall|secid: u32, p: int| #[trigger] store.lines(lid, secid).contains_key(p) implies exists|k: int|
        0 <= k < r.len() && r[k] == (secid, p, store.lines(lid, secid)[p]) by {
        assert(has_section(s, lid, secid));
        let i = choose|i: int| 0 <= i < s.len() && s[i].lid == lid && s[i].secid == secid;
        lemma_lines_of_at(s, i);
        let j = p - first_pos(s[i].titled);
        lemma_rows_complete(s, lid, i, j);
        assert(section_rows(s[i])[j] == (secid, p, store.lines(lid, secid)[p]));
    }
}

proof fn lemma_groups_append(a: Seq<FlatRow>, b: Seq<FlatRow>)
    requires
        b.len() > 0,
        forall|i: int| 0 <= i < b.len() ==> #[trigger] b[i].0 == b[0].0,
        a.len() > 0 ==> a.last().0 != b[0].0,
    ensures
        groups(a + b) == groups(a).push(b),
    decreases b.len(),
{
    if b.len() == 1 {
        assert((a + b).drop_last() =~= a);
        if a.len() > 0 {
            assert(groups(a).len() > 0) by {
                lemma_groups_last(a);
            }
            lemma_groups_last(a);
        }
        assert(seq![b[0]] =~= b);
    } else {
        let b1 = b.drop_last();
        lemma_groups_append(a, b1);
        assert((a + b).drop_last() =~= a + b1);
        let g = groups(a + b1);
        assert(g.last() == b1);
        assert(g.update(g.len() - 1, b1.push(b.last())) =~= groups(a).push(b)) by {
            assert(b1.push(b.last()) =~= b);
        }
    }
}

proof fn lemma_groups_last(a: Seq<FlatRow>)
    requires
        a.len() > 0,
    ensures
        groups(a).len() > 0,
        groups(a).last().len() > 0,
        groups(a).last().last() == a.last(),
    decreases a.len(),
{
    if a.len() > 1 {
        lemma_groups_last(a.drop_last());
    }
}

/// Assembling the rows that the store hands out for a lecture gives exactly the store's
/// own reconstruction of it (`get_lecture_struct`): the rows are already in key order.
pub proof fn lemma_assembler_matches_store(store: &LineStore, lid: Seq<char>)
    requires
        store.wf(),
    ensures
        strictly_sorted(doc_rows(store.sections_view(), lid)),
        assembled(doc_rows(store.sections_view(), lid)) == doc_sections(store.sections_view(), lid),
{
    lemma_rows_sorted(store.sections_view(), lid);
    lemma_assembled_doc(store.sections_view(), lid);
}

proof fn lemma_assembled_doc(s: Seq<SectionView>, lid: Seq<char>)
    requires
        sections_wf(s),
    ensures
        assembled(doc_rows(s, lid)) == doc_sections(s, lid),
    decreases s.len(),
{
    if s.len() > 0 {
        let t = s.drop_last();
        let n = s.len() - 1;
        lemma_wf_drop_last(s);
        lemma_assembled_doc(t, lid);
        if s.last().lid == lid {
            let a = doc_rows(t, lid);
            let b = section_rows(s.last());
            assert(s[n].entries.len() > 0);
            if a.len() > 0 {
                lemma_rows_origin(t, lid);
                assert(row_from(t, lid, a[a.len() - 1]));
                let (i, j) = choose|i: int, j: int|
                    0 <= i < t.len() && t[i].lid == lid && 0 <= j < t[i].entries.len() && a[a.len() - 1]
                        == #[trigger] section_rows(t[i])[j];
                assert(t[i] == s[i]);
                assert(s[i].secid <= s[n].secid);
                assert(s[i].secid != s[n].secid);
            }
            lemma_groups_append(a, b);
            assert(groups(a + b).map_values(|g: Seq<FlatRow>| group_section(g)) =~= groups(a).map_values(
                |g: Seq<FlatRow>| group_section(g),
            ).push(group_section(b)));
            assert(group_section(b).1 =~= section_data(s[n]).1);
        }
    }
}

} // verus!

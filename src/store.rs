use vstd::prelude::*;
use crate::assemble::{section_data, section_value, assemble_section, lecture_value};
use crate::model::{
    Section, LectureData, CreateLecture, Line, StoreError, Positions, inserted, deleted,
    insert_allowed, has_room,
};
use crate::section::{SectionLines, SectionView, positions, first_pos};

verus! {

/// A stored line as values: (section id, position, content).
pub type RowView = (u32, int, Seq<char>);

/// The rows of one section, in position order.
pub open spec fn section_rows(v: SectionView) -> Seq<RowView> {
    Seq::new(v.entries.len(), |i: int| (v.secid, i + first_pos(v.titled), v.entries[i]))
}

/// The rows of lecture `lid`, section after section in stored order.
pub open spec fn doc_rows(s: Seq<SectionView>, lid: Seq<char>) -> Seq<RowView>
    decreases s.len(),
{
    if s.len() == 0 {
        Seq::empty()
    } else if s.last().lid == lid {
        doc_rows(s.drop_last(), lid) + section_rows(s.last())
    } else {
        doc_rows(s.drop_last(), lid)
    }
}

/// The document sections of lecture `lid`, in stored order.
pub open spec fn doc_sections(s: Seq<SectionView>, lid: Seq<char>) -> Seq<(Seq<char>, Seq<Seq<char>>)>
    decreases s.len(),
{
    if s.len() == 0 {
        Seq::empty()
    } else if s.last().lid == lid {
        doc_sections(s.drop_last(), lid).push(section_data(s.last()))
    } else {
        doc_sections(s.drop_last(), lid)
    }
}

/// The contents of the rows, each followed by a line terminator.
pub open spec fn text_of(rows: Seq<RowView>) -> Seq<char>
    decreases rows.len(),
{
    if rows.len() == 0 {
        Seq::empty()
    } else {
        text_of(rows.drop_last()) + rows.last().2 + seq!['\n']
    }
}

/// Exec rows as values.
pub open spec fn row_values(v: Seq<(u32, i64, String)>) -> Seq<RowView> {
    v.map_values(|r: (u32, i64, String)| (r.0, r.1 as int, r.2@))
}

/// Some entry of `s` is the section `secid` of lecture `lid`.
pub open spec fn has_section(s: Seq<SectionView>, lid: Seq<char>, secid: u32) -> bool {
    exists|i: int| 0 <= i < s.len() && s[i].lid == lid && s[i].secid == secid
}

/// The lines of section `secid` of lecture `lid`, by position; empty when there are none.
pub open spec fn lines_of(s: Seq<SectionView>, lid: Seq<char>, secid: u32) -> Positions {
    if has_section(s, lid, secid) {
        positions(s[choose|i: int| 0 <= i < s.len() && s[i].lid == lid && s[i].secid == secid])
    } else {
        Map::empty()
    }
}

/// Registered lectures as (name, key, updated) triples.
pub open spec fn lecture_triples(v: Seq<CreateLecture>) -> Seq<(Seq<char>, Seq<char>, u64)> {
    v.map_values(|c: CreateLecture| (c.name@, c.lid@, c.updated))
}

/// Some lecture of `l` has key `lid`.
pub open spec fn key_registered(l: Seq<(Seq<char>, Seq<char>, u64)>, lid: Seq<char>) -> bool {
    exists|i: int| 0 <= i < l.len() && l[i].1 == lid
}

/// No two registered lectures share a key.
pub open spec fn lecture_keys_unique(l: Seq<(Seq<char>, Seq<char>, u64)>) -> bool {
    forall|i: int, j: int| 0 <= i < l.len() && 0 <= j < l.len() && i != j ==> l[i].1 != l[j].1
}

/// Every position of the section is an `i64`.
pub open spec fn positions_fit(v: SectionView) -> bool {
    first_pos(v.titled) + v.entries.len() <= i64::MAX + 1
}

/// No two entries share a (lecture, section) key.
pub open spec fn keys_unique(s: Seq<SectionView>) -> bool {
    forall|i: int, j: int|
        0 <= i < s.len() && 0 <= j < s.len() && i != j ==> !(s[i].lid == s[j].lid && s[i].secid
            == s[j].secid)
}

/// Entries are ordered by ascending section id.
pub open spec fn sorted_by_secid(s: Seq<SectionView>) -> bool {
    forall|i: int, j: int| 0 <= i < j < s.len() ==> s[i].secid <= s[j].secid
}

/// Well-formed store content: every section holds a line, keys are unique, and the
/// sections are kept in ascending section id order.
pub open spec fn sections_wf(s: Seq<SectionView>) -> bool {
    &&& forall|i: int| 0 <= i < s.len() ==> #[trigger] s[i].entries.len() > 0
    &&& forall|i: int| 0 <= i < s.len() ==> #[trigger] positions_fit(s[i])
    &&& keys_unique(s)
    &&& sorted_by_secid(s)
}

pub proof fn lemma_lines_of_at(s: Seq<SectionView>, i: int)
    requires
        keys_unique(s),
        0 <= i < s.len(),
    ensures
        lines_of(s, s[i].lid, s[i].secid) == positions(s[i]),
{
    let lid = s[i].lid;
    let secid = s[i].secid;
    assert(has_section(s, lid, secid));
    let j = choose|j: int| 0 <= j < s.len() && s[j].lid == lid && s[j].secid == secid;
    assert(i == j);
}

/// Replacing entry `i` by one with the same key changes that key's lines only.
proof fn lemma_update_frame(s: Seq<SectionView>, i: int, v: SectionView)
    requires
        keys_unique(s),
        0 <= i < s.len(),
        v.lid == s[i].lid,
        v.secid == s[i].secid,
    ensures
        keys_unique(s.update(i, v)),
        lines_of(s.update(i, v), v.lid, v.secid) == positions(v),
        forall|l: Seq<char>, k: u32|
            !(l == v.lid && k == v.secid) ==> #[trigger] lines_of(s.update(i, v), l, k) == lines_of(
                s,
                l,
                k,
            ),
{
    let t = s.update(i, v);
    assert(keys_unique(t));
    lemma_lines_of_at(t, i);
    assert forall|l: Seq<char>, k: u32|
        !(l == v.lid && k == v.secid) implies #[trigger] lines_of(t, l, k) == lines_of(s, l, k) by {
        if has_section(s, l, k) {
            let j = choose|j: int| 0 <= j < s.len() && s[j].lid == l && s[j].secid == k;
            lemma_lines_of_at(s, j);
            lemma_lines_of_at(t, j);
        } else {
            assert(!has_section(t, l, k));
        }
    }
}

/// Inserting an entry with a fresh key at index `i` adds that key's lines only.
proof fn lemma_insert_frame(s: Seq<SectionView>, i: int, v: SectionView)
    requires
        keys_unique(s),
        0 <= i <= s.len(),
        !has_section(s, v.lid, v.secid),
    ensures
        keys_unique(s.insert(i, v)),
        lines_of(s.insert(i, v), v.lid, v.secid) == positions(v),
        forall|l: Seq<char>, k: u32|
            !(l == v.lid && k == v.secid) ==> #[trigger] lines_of(s.insert(i, v), l, k) == lines_of(
                s,
                l,
                k,
            ),
{
    let t = s.insert(i, v);
    assert forall|a: int, b: int|
        0 <= a < t.len() && 0 <= b < t.len() && a != b implies !(t[a].lid == t[b].lid
            && t[a].secid == t[b].secid) by {
        if a == i {
            let bb = if b < i { b } else { b - 1 };
            assert(t[b] == s[bb]);
        } else if b == i {
            let aa = if a < i { a } else { a - 1 };
            assert(t[a] == s[aa]);
        }
    }
    lemma_lines_of_at(t, i);
    assert forall|l: Seq<char>, k: u32|
        !(l == v.lid && k == v.secid) implies #[trigger] lines_of(t, l, k) == lines_of(s, l, k) by {
        if has_section(s, l, k) {
            let j = choose|j: int| 0 <= j < s.len() && s[j].lid == l && s[j].secid == k;
            lemma_lines_of_at(s, j);
            let jj = if j < i { j } else { j + 1 };
            assert(t[jj] == s[j]);
            lemma_lines_of_at(t, jj);
        } else {
            if has_section(t, l, k) {
                let j = choose|j: int| 0 <= j < t.len() && t[j].lid == l && t[j].secid == k;
                let jj = if j < i { j } else { j - 1 };
                assert(t[j] == s[jj]);
            }
        }
    }
}

/// Removing entry `i` drops that key's lines only.
proof fn lemma_remove_frame(s: Seq<SectionView>, i: int)
    requires
        keys_unique(s),
        0 <= i < s.len(),
    ensures
        keys_unique(s.remove(i)),
        lines_of(s.remove(i), s[i].lid, s[i].secid) == Map::<int, Seq<char>>::empty(),
        forall|l: Seq<char>, k: u32|
            !(l == s[i].lid && k == s[i].secid) ==> #[trigger] lines_of(s.remove(i), l, k)
                == lines_of(s, l, k),
{
    let t = s.remove(i);
    assert forall|a: int, b: int|
        0 <= a < t.len() && 0 <= b < t.len() && a != b implies !(t[a].lid == t[b].lid
            && t[a].secid == t[b].secid) by {
        let aa = if a < i { a } else { a + 1 };
        let bb = if b < i { b } else { b + 1 };
        assert(t[a] == s[aa]);
        assert(t[b] == s[bb]);
    }
    if has_section(t, s[i].lid, s[i].secid) {
        let j = choose|j: int| 0 <= j < t.len() && t[j].lid == s[i].lid && t[j].secid == s[i].secid;
        let jj = if j < i { j } else { j + 1 };
        assert(t[j] == s[jj]);
    }
    assert forall|l: Seq<char>, k: u32|
        !(l == s[i].lid && k == s[i].secid) implies #[trigger] lines_of(t, l, k) == lines_of(s, l, k) by {
        if has_section(s, l, k) {
            let j = choose|j: int| 0 <= j < s.len() && s[j].lid == l && s[j].secid == k;
            lemma_lines_of_at(s, j);
            let jj = if j < i { j } else { j - 1 };
            assert(t[jj] == s[j]);
            lemma_lines_of_at(t, jj);
        } else {
            if has_section(t, l, k) {
                let j = choose|j: int| 0 <= j < t.len() && t[j].lid == l && t[j].secid == k;
                let jj = if j < i { j } else { j + 1 };
                assert(t[j] == s[jj]);
            }
        }
    }
}

/// The ordered-line store: registered lectures, and the lines of every section kept
/// as dense, gap-free runs of positions.
pub struct LineStore {
    lectures: Vec<CreateLecture>,
    sections: Vec<SectionLines>,
}

impl LineStore {
    /// The sections as mathematical values, in stored (ascending section id) order.
    pub closed spec fn sections_view(&self) -> Seq<SectionView> {
        self.sections@.map_values(|s: SectionLines| s@)
    }

    /// The registered lectures as (name, key, updated) triples, in registration order.
    pub closed spec fn lectures_view(&self) -> Seq<(Seq<char>, Seq<char>, u64)> {
        lecture_triples(self.lectures@)
    }

    /// The lines of section `secid` of lecture `lid`, by position.
    pub open spec fn lines(&self, lid: Seq<char>, secid: u32) -> Positions {
        lines_of(self.sections_view(), lid, secid)
    }

    /// Some registered lecture has key `lid`.
    pub open spec fn has_lecture(&self, lid: Seq<char>) -> bool {
        key_registered(self.lectures_view(), lid)
    }

    pub open spec fn wf(&self) -> bool {
        &&& sections_wf(self.sections_view())
        &&& lecture_keys_unique(self.lectures_view())
    }

    /// An empty store.
    pub fn new() -> (r: LineStore)
        ensures
            r.wf(),
            r.lectures_view() == Seq::<(Seq<char>, Seq<char>, u64)>::empty(),
            r.sections_view() == Seq::<SectionView>::empty(),
    {
        let r = LineStore { lectures: Vec::new(), sections: Vec::new() };
        assert(r.sections_view() =~= Seq::<SectionView>::empty());
        assert(r.lectures_view() =~= Seq::<(Seq<char>, Seq<char>, u64)>::empty());
        r
    }

    /// Index of section `secid` of lecture `lid`, if it holds any line.
    fn find_section(&self, lid: &String, secid: u32) -> (r: Option<usize>)
        requires
            self.wf(),
        ensures
            match r {
                Some(i) => i < self.sections_view().len() && self.sections_view()[i as int].lid
                    == lid@ && self.sections_view()[i as int].secid == secid,
                None => !has_section(self.sections_view(), lid@, secid),
            },
    {
        let mut i: usize = 0;
        while i < self.sections.len()
            invariant
                i <= self.sections.len(),
                forall|j: int|
                    0 <= j < i ==> !(#[trigger] self.sections_view()[j].lid == lid@
                        && self.sections_view()[j].secid == secid),
            decreases self.sections.len() - i,
        {
            if self.sections[i].secid == secid && self.sections[i].lid == *lid {
                return Some(i);
            }
            i = i + 1;
        }
        None
    }

    /// Index at which a new section `secid` keeps the sections in ascending id order.
    fn slot_for(&self, secid: u32) -> (r: usize)
        requires
            self.wf(),
        ensures
            r <= self.sections_view().len(),
            forall|j: int| 0 <= j < r ==> self.sections_view()[j].secid <= secid,
            forall|j: int| r <= j < self.sections_view().len() ==> self.sections_view()[j].secid > secid,
    {
        let mut i: usize = 0;
        while i < self.sections.len()
            invariant
                i <= self.sections.len(),
                self.wf(),
                forall|j: int| 0 <= j < i ==> self.sections_view()[j].secid <= secid,
            decreases self.sections.len() - i,
        {
            if self.sections[i].secid > secid {
                assert(self.sections_view()[i as int].secid == self.sections[i as int].secid);
                assert(forall|j: int|
                    i <= j < self.sections_view().len() ==> self.sections_view()[i as int].secid
                        <= self.sections_view()[j].secid);
                return i;
            }
            i = i + 1;
        }
        i
    }

    /// Inserts `line.data` at `line.lineno` in its section: the line found there and all
    /// later ones move down by one. Refused when the position would leave a gap.
    pub fn insert_line(&mut self, line: Line) -> (r: Result<(), StoreError>)
        requires
            old(self).wf(),
        ensures
            final(self).wf(),
            final(self).lectures_view() == old(self).lectures_view(),
            r.is_ok() <==> insert_allowed(old(self).lines(line.lid@, line.secid), line.lineno as int)
                && has_room(old(self).lines(line.lid@, line.secid)),
            r.is_err() ==> r == Err::<(), StoreError>(StoreError::ValidationFailure)
                && final(self).sections_view() == old(self).sections_view(),
            r.is_ok() ==> final(self).lines(line.lid@, line.secid) == inserted(
                old(self).lines(line.lid@, line.secid),
                line.lineno as int,
                line.data@,
            ),
            forall|l: Seq<char>, k: u32|
                !(l == line.lid@ && k == line.secid) ==> #[trigger] final(self).lines(l, k)
                    == old(self).lines(l, k),
    {
        let ghost s0 = self.sections_view();
        let Line { lid, secid, lineno, data } = line;
        if lineno < -1 {
            return Err(StoreError::ValidationFailure);
        }
        match self.find_section(&lid, secid) {
            Some(i) => {
                proof {
                    lemma_lines_of_at(s0, i as int);
                }
                let len = self.sections[i].entries.len();
                let titled = self.sections[i].titled;
                assert(len == s0[i as int].entries.len());
                let last: usize = if titled {
                    len - 1
                } else {
                    len
                };
                if lineno != -1 && (lineno as i128) > (last as i128) {
                    return Err(StoreError::ValidationFailure);
                }
                if (last as i128) > (i64::MAX as i128) {
                    return Err(StoreError::ValidationFailure);
                }
                let mut sec = self.sections.remove(i);
                sec.insert_at(lineno, data);
                let ghost v = sec@;
                self.sections.insert(i, sec);
                assert(positions_fit(s0[i as int]));
                assert(positions_fit(v));
                assert(self.sections_view() =~= s0.update(i as int, v));
                proof {
                    lemma_update_frame(s0, i as int, v);
                }
                Ok(())
            },
            None => {
                if lineno != -1 && lineno != 0 {
                    return Err(StoreError::ValidationFailure);
                }
                let sec = SectionLines::single(lid, secid, lineno, data);
                let ghost v = sec@;
                assert(positions_fit(v));
                let slot = self.slot_for(secid);
                self.sections.insert(slot, sec);
                assert(self.sections_view() =~= s0.insert(slot as int, v));
                proof {
                    lemma_insert_frame(s0, slot as int, v);
                }
                Ok(())
            },
        }
    }

    /// Deletes the line at `line.lineno` in its section (`line.data` is not consulted);
    /// every later line moves up by one. A section left without lines disappears.
    pub fn delete_line(&mut self, line: Line) -> (r: Result<(), StoreError>)
        requires
            old(self).wf(),
        ensures
            final(self).wf(),
            final(self).lectures_view() == old(self).lectures_view(),
            r.is_ok() <==> old(self).lines(line.lid@, line.secid).contains_key(line.lineno as int),
            r == Err::<(), StoreError>(StoreError::ValidationFailure) <==> line.lineno < -1,
            r == Err::<(), StoreError>(StoreError::NotFound) <==> line.lineno >= -1 && !old(
                self,
            ).lines(line.lid@, line.secid).contains_key(line.lineno as int),
            r.is_err() ==> final(self).sections_view() == old(self).sections_view(),
            r.is_ok() ==> final(self).lines(line.lid@, line.secid) == deleted(
                old(self).lines(line.lid@, line.secid),
                line.lineno as int,
            ),
            forall|l: Seq<char>, k: u32|
                !(l == line.lid@ && k == line.secid) ==> #[trigger] final(self).lines(l, k)
                    == old(self).lines(l, k),
    {
        let ghost s0 = self.sections_view();
        let Line { lid, secid, lineno, data: _ } = line;
        if lineno < -1 {
            return Err(StoreError::ValidationFailure);
        }
        match self.find_section(&lid, secid) {
            Some(i) => {
                proof {
                    lemma_lines_of_at(s0, i as int);
                }
                let len = self.sections[i].entries.len();
                let titled = self.sections[i].titled;
                assert(len == s0[i as int].entries.len());
                let end: usize = if titled {
                    len - 1
                } else {
                    len
                };
                if (lineno == -1 && !titled) || (lineno as i128) >= (end as i128) {
                    return Err(StoreError::NotFound);
                }
                let mut sec = self.sections.remove(i);
                sec.delete_at(lineno);
                let ghost v = sec@;
                if sec.entries.len() == 0 {
                    assert(self.sections_view() =~= s0.remove(i as int));
                    assert(positions(v) =~= Map::<int, Seq<char>>::empty());
                    proof {
                        lemma_remove_frame(s0, i as int);
                    }
                } else {
                    self.sections.insert(i, sec);
                    assert(positions_fit(s0[i as int]));
                    assert(positions_fit(v));
                    assert(self.sections_view() =~= s0.update(i as int, v));
                    proof {
                        lemma_update_frame(s0, i as int, v);
                    }
                }
                Ok(())
            },
            None => Err(StoreError::NotFound),
        }
    }

    /// Registers a lecture. A key can be registered once only.
    pub fn insert_lecture(&mut self, creation_data: CreateLecture) -> (r: Result<(), StoreError>)
        requires
            old(self).wf(),
        ensures
            final(self).wf(),
            final(self).sections_view() == old(self).sections_view(),
            r.is_ok() <==> !old(self).has_lecture(creation_data.lid@),
            r.is_ok() ==> final(self).lectures_view() == old(self).lectures_view().push(
                (creation_data.name@, creation_data.lid@, creation_data.updated),
            ),
            r.is_err() ==> r == Err::<(), StoreError>(StoreError::StorageFailure)
                && final(self).lectures_view() == old(self).lectures_view(),
    {
        let mut i: usize = 0;
        while i < self.lectures.len()
            invariant
                i <= self.lectures.len(),
                self.wf(),
                self.sections_view() == old(self).sections_view(),
                self.lectures_view() == old(self).lectures_view(),
                forall|j: int|
                    0 <= j < i ==> #[trigger] self.lectures_view()[j].1 != creation_data.lid@,
            decreases self.lectures.len() - i,
        {
            if self.lectures[i].lid == creation_data.lid {
                assert(self.lectures_view()[i as int].1 == creation_data.lid@);
                return Err(StoreError::StorageFailure);
            }
            i = i + 1;
        }
        let ghost l0 = self.lectures_view();
        let ghost entry = (creation_data.name@, creation_data.lid@, creation_data.updated);
        self.lectures.push(creation_data);
        assert(self.lectures_view() =~= l0.push(entry));
        Ok(())
    }

    /// The registered lectures, in registration order.
    pub fn get_lectures(&self) -> (r: Vec<CreateLecture>)
        ensures
            lecture_triples(r@) == self.lectures_view(),
    {
        let mut out: Vec<CreateLecture> = Vec::new();
        let mut i: usize = 0;
        while i < self.lectures.len()
            invariant
                i <= self.lectures.len(),
                lecture_triples(out@)
                    =~= self.lectures_view().take(i as int),
            decreases self.lectures.len() - i,
        {
            let c = &self.lectures[i];
            assert(self.lectures_view()[i as int] == (c.name@, c.lid@, c.updated));
            let item = CreateLecture { name: c.name.clone(), lid: c.lid.clone(), updated: c.updated };
            let ghost prev = out@;
            out.push(item);
            assert(out@ == prev.push(item));
            assert(lecture_triples(out@) =~= lecture_triples(prev).push((item.name@, item.lid@, item.updated)));
            assert(self.lectures_view().take(i + 1) =~= self.lectures_view().take(i as int).push(self.lectures_view()[i as int]));
            i = i + 1;
        }
        assert(self.lectures_view().take(i as int) =~= self.lectures_view());
        out
    }

    /// Every line of lecture `lid` as (section id, position, content), ordered by section
    /// id and then by position.
    pub fn fetch_ordered_lines(&self, lid: &str) -> (r: Vec<(u32, i64, String)>)
        requires
            self.wf(),
        ensures
            row_values(r@) == doc_rows(self.sections_view(), lid@),
    {
        let key = lid.to_owned();
        let ghost sv = self.sections_view();
        let mut out: Vec<(u32, i64, String)> = Vec::new();
        let mut i: usize = 0;
        while i < self.sections.len()
            invariant
                i <= self.sections.len(),
                sv == self.sections_view(),
                sections_wf(sv),
                key@ == lid@,
                row_values(out@) =~= doc_rows(sv.take(i as int), lid@),
            decreases self.sections.len() - i,
        {
            let sec = &self.sections[i];
            assert(sv.take(i + 1).drop_last() =~= sv.take(i as int));
            assert(sv[i as int] == sec@);
            assert(positions_fit(sec@));
            if sec.lid == key {
                let ghost base = out@;
                let mut j: usize = 0;
                while j < sec.entries.len()
                    invariant
                        j <= sec.entries.len(),
                        sec@.entries.len() == sec.entries.len(),
                        positions_fit(sec@),
                        row_values(out@) =~= row_values(base) + section_rows(sec@).take(j as int),
                    decreases sec.entries.len() - j,
                {
                    let pos: i64 = if sec.titled {
                        if j == 0 {
                            -1
                        } else {
                            (j - 1) as i64
                        }
                    } else {
                        j as i64
                    };
                    let content = sec.entries[j].clone();
                    let ghost prev = out@;
                    out.push((sec.secid, pos, content));
                    assert(row_values(out@) =~= row_values(prev).push(section_rows(sec@)[j as int]));
                    assert(section_rows(sec@).take(j + 1) =~= section_rows(sec@).take(j as int).push(section_rows(sec@)[j as int]));
                    j = j + 1;
                }
                assert(section_rows(sec@).take(j as int) =~= section_rows(sec@));
            }
            i = i + 1;
        }
        assert(sv.take(i as int) =~= sv);
        out
    }

    /// The text of lecture `lid`: every line in (section id, position) order, each
    /// followed by a line terminator.
    pub fn get_lecture(&self, lid: &str) -> (r: String)
        requires
            self.wf(),
        ensures
            r@ == text_of(doc_rows(self.sections_view(), lid@)),
    {
        let rows = self.fetch_ordered_lines(lid);
        let ghost rv = row_values(rows@);
        let mut result = String::new();
        let mut i: usize = 0;
        proof {
            reveal_strlit("\n");
        }
        while i < rows.len()
            invariant
                i <= rows.len(),
                rv == row_values(rows@),
                result@ == text_of(rv.take(i as int)),
            decreases rows.len() - i,
        {
            assert(rv.take(i + 1).drop_last() =~= rv.take(i as int));
            result.append(rows[i].2.as_str());
            result.append("\n");
            proof {
                reveal_strlit("\n");
            }
            i = i + 1;
        }
        assert(rv.take(i as int) =~= rv);
        result
    }

    /// Lecture `lid` as a document: its sections in ascending section id order, each with
    /// its title and body.
    pub fn get_lecture_struct(&self, lid: &str) -> (r: LectureData)
        requires
            self.wf(),
        ensures
            lecture_value(r) == doc_sections(
                self.sections_view(),
                lid@,
            ),
    {
        let key = lid.to_owned();
        let ghost sv = self.sections_view();
        let mut out: Vec<Section> = Vec::new();
        let mut i: usize = 0;
        while i < self.sections.len()
            invariant
                i <= self.sections.len(),
                sv == self.sections_view(),
                sections_wf(sv),
                key@ == lid@,
                out@.map_values(|s: Section| section_value(s)) =~= doc_sections(sv.take(i as int), lid@),
            decreases self.sections.len() - i,
        {
            let sec = &self.sections[i];
            assert(sv.take(i + 1).drop_last() =~= sv.take(i as int));
            assert(sv[i as int] == sec@);
            assert(sec@.entries.len() > 0);
            if sec.lid == key {
                let part = assemble_section(sec);
                let ghost prev = out@;
                out.push(part);
                assert(out@.map_values(|s: Section| section_value(s)) =~= prev.map_values(|s: Section| section_value(s)).push(section_value(part)));
            }
            i = i + 1;
        }
        assert(sv.take(i as int) =~= sv);
        let r = LectureData { sections: out };
        assert(lecture_value(r) =~= doc_sections(sv, lid@));
        r
    }
}

/// The operations that the dispatch layer calls on a lecture store, stated over an
/// abstract view: the registered lectures, the position map of every section, and each
/// lecture's rows and reconstructed sections.
pub trait LectureStore: Sized {
    /// The store's invariant, which every operation keeps.
    spec fn store_wf(&self) -> bool;

    /// Registered lectures as (name, key, updated) triples, in registration order.
    spec fn lecture_list(&self) -> Seq<(Seq<char>, Seq<char>, u64)>;

    /// Position map of section `secid` of lecture `lid`.
    spec fn line_map(&self, lid: Seq<char>, secid: u32) -> Positions;

    /// Rows of lecture `lid` in (section id, position) order.
    spec fn lecture_rows(&self, lid: Seq<char>) -> Seq<RowView>;

    /// Sections of lecture `lid` as (title, body), in ascending section id order.
    spec fn lecture_sections(&self, lid: Seq<char>) -> Seq<(Seq<char>, Seq<Seq<char>>)>;

    fn new() -> (r: Self)
        ensures
            r.store_wf(),
            r.lecture_list().len() == 0,
            forall|l: Seq<char>, k: u32| #[trigger] r.line_map(l, k) == Map::<int, Seq<char>>::empty(),
    ;

    fn get_lectures(&self) -> (r: Vec<CreateLecture>)
        ensures
            lecture_triples(r@) == self.lecture_list(),
    ;

    fn insert_lecture(&mut self, creation_data: CreateLecture) -> (r: Result<(), StoreError>)
        requires
            old(self).store_wf(),
        ensures
            final(self).store_wf(),
            r.is_ok() <==> !key_registered(old(self).lecture_list(), creation_data.lid@),
            r.is_ok() ==> final(self).lecture_list() == old(self).lecture_list().push(
                (creation_data.name@, creation_data.lid@, creation_data.updated),
            ),
            r.is_err() ==> r == Err::<(), StoreError>(StoreError::StorageFailure)
                && final(self).lecture_list() == old(self).lecture_list(),
            forall|l: Seq<char>, k: u32| #[trigger] final(self).line_map(l, k) == old(self).line_map(l, k),
    ;

    fn insert_line(&mut self, line: Line) -> (r: Result<(), StoreError>)
        requires
            old(self).store_wf(),
        ensures
            final(self).store_wf(),
            final(self).lecture_list() == old(self).lecture_list(),
            r.is_ok() <==> insert_allowed(old(self).line_map(line.lid@, line.secid), line.lineno as int)
                && has_room(old(self).line_map(line.lid@, line.secid)),
            r.is_err() ==> r == Err::<(), StoreError>(StoreError::ValidationFailure),
            r.is_ok() ==> final(self).line_map(line.lid@, line.secid) == inserted(
                old(self).line_map(line.lid@, line.secid),
                line.lineno as int,
                line.data@,
            ),
            r.is_err() ==> final(self).line_map(line.lid@, line.secid) == old(self).line_map(
                line.lid@,
                line.secid,
            ),
            forall|l: Seq<char>, k: u32|
                !(l == line.lid@ && k == line.secid) ==> #[trigger] final(self).line_map(l, k)
                    == old(self).line_map(l, k),
    ;

    fn get_lecture(&self, lid: &str) -> (r: String)
        requires
            self.store_wf(),
        ensures
            r@ == text_of(self.lecture_rows(lid@)),
    ;

    fn delete_line(&mut self, line: Line) -> (r: Result<(), StoreError>)
        requires
            old(self).store_wf(),
        ensures
            final(self).store_wf(),
            final(self).lecture_list() == old(self).lecture_list(),
            r.is_ok() <==> old(self).line_map(line.lid@, line.secid).contains_key(line.lineno as int),
            r == Err::<(), StoreError>(StoreError::ValidationFailure) <==> line.lineno < -1,
            r == Err::<(), StoreError>(StoreError::NotFound) <==> line.lineno >= -1 && !old(
                self,
            ).line_map(line.lid@, line.secid).contains_key(line.lineno as int),
            r.is_ok() ==> final(self).line_map(line.lid@, line.secid) == deleted(
                old(self).line_map(line.lid@, line.secid),
                line.lineno as int,
            ),
            r.is_err() ==> final(self).line_map(line.lid@, line.secid) == old(self).line_map(
                line.lid@,
                line.secid,
            ),
            forall|l: Seq<char>, k: u32|
                !(l == line.lid@ && k == line.secid) ==> #[trigger] final(self).line_map(l, k)
                    == old(self).line_map(l, k),
    ;

    fn get_lecture_struct(&self, lid: &str) -> (r: LectureData)
        requires
            self.store_wf(),
        ensures
            lecture_value(r) == self.lecture_sections(lid@),
    ;
}

impl LectureStore for LineStore {
    open spec fn store_wf(&self) -> bool {
        self.wf()
    }

    open spec fn lecture_list(&self) -> Seq<(Seq<char>, Seq<char>, u64)> {
        self.lectures_view()
    }

    open spec fn line_map(&self, lid: Seq<char>, secid: u32) -> Positions {
        self.lines(lid, secid)
    }

    open spec fn lecture_rows(&self, lid: Seq<char>) -> Seq<RowView> {
        doc_rows(self.sections_view(), lid)
    }

    open spec fn lecture_sections(&self, lid: Seq<char>) -> Seq<(Seq<char>, Seq<Seq<char>>)> {
        doc_sections(self.sections_view(), lid)
    }

    fn new() -> (r: Self) {
        LineStore::new()
    }

    fn get_lectures(&self) -> (r: Vec<CreateLecture>) {
        LineStore::get_lectures(self)
    }

    fn insert_lecture(&mut self, creation_data: CreateLecture) -> (r: Result<(), StoreError>) {
        LineStore::insert_lecture(self, creation_data)
    }

    fn insert_line(&mut self, line: Line) -> (r: Result<(), StoreError>) {
        LineStore::insert_line(self, line)
    }

    fn get_lecture(&self, lid: &str) -> (r: String) {
        LineStore::get_lecture(self, lid)
    }

    fn delete_line(&mut self, line: Line) -> (r: Result<(), StoreError>) {
        LineStore::delete_line(self, line)
    }

    fn get_lecture_struct(&self, lid: &str) -> (r: LectureData) {
        LineStore::get_lecture_struct(self, lid)
    }
}

} // verus!

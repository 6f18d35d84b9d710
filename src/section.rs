use vstd::prelude::*;
use crate::model::{Positions, inserted, deleted, insert_allowed};

verus! {

/// What a stored section holds, as mathematical values.
pub struct SectionView {
    pub lid: Seq<char>,
    pub secid: u32,
    pub titled: bool,
    pub entries: Seq<Seq<char>>,
}

/// Position of the first entry: the title sentinel when the section has a title.
pub open spec fn first_pos(titled: bool) -> int {
    if titled {
        -1
    } else {
        0
    }
}

/// The section as a map from position to content.
pub open spec fn positions(v: SectionView) -> Positions {
    Map::new(
        |p: int| first_pos(v.titled) <= p < first_pos(v.titled) + v.entries.len(),
        |p: int| v.entries[p - first_pos(v.titled)],
    )
}

/// The lines of one (lecture, section) pair, kept as one dense run of entries.
/// The entry at index `i` sits at position `i - 1` when the section has a title
/// and at position `i` otherwise, so positions never have gaps.
pub struct SectionLines {
    pub lid: String,
    pub secid: u32,
    pub titled: bool,
    pub entries: Vec<String>,
}

impl SectionLines {
    pub open spec fn view(&self) -> SectionView {
        SectionView {
            lid: self.lid@,
            secid: self.secid,
            titled: self.titled,
            entries: self.entries@.map_values(|s: String| s@),
        }
    }

    /// A section that holds one line, at the title slot or at body position zero.
    pub fn single(lid: String, secid: u32, p: i64, data: String) -> (r: SectionLines)
        requires
            p == -1 || p == 0,
        ensures
            r@.lid == lid@,
            r@.secid == secid,
            r@.entries.len() == 1,
            positions(r@) == inserted(Map::empty(), p as int, data@),
    {
        let ghost c = data@;
        let mut entries: Vec<String> = Vec::new();
        entries.push(data);
        let r = SectionLines { lid, secid, titled: p == -1, entries };
        assert(positions(r@) =~= inserted(Map::empty(), p as int, c));
        r
    }

    /// Inserts `data` at position `p`, shifting the line at `p` and all later ones down.
    pub fn insert_at(&mut self, p: i64, data: String)
        requires
            insert_allowed(positions(old(self)@), p as int),
            old(self)@.entries.len() > 0,
        ensures
            final(self)@.lid == old(self)@.lid,
            final(self)@.secid == old(self)@.secid,
            final(self)@.entries.len() == old(self)@.entries.len() + 1,
            final(self)@.titled == (old(self)@.titled || p == -1),
            positions(final(self)@) == inserted(positions(old(self)@), p as int, data@),
    {
        let ghost m = positions(self@);
        let ghost c = data@;
        let ghost old_entries = self@.entries;
        let ghost f = first_pos(self.titled);
        if p == -1 {
            self.entries.insert(0, data);
            self.titled = true;
        } else {
            assert(old_entries.len() == self.entries.len());
            assert(self.titled ==> f == -1);
            assert(!self.titled ==> f == 0);
            assert(p <= old_entries.len() + f) by {
                if p > 0 && !m.contains_key(p as int) {
                    assert(m.contains_key(p - 1));
                }
            }
            let idx: usize = if self.titled {
                p as usize + 1
            } else {
                p as usize
            };
            self.entries.insert(idx, data);
        }
        let ghost idx = if p == -1 { 0int } else { p - f };
        assert(self@.entries =~= old_entries.insert(idx, c));
        assert(positions(self@) =~= inserted(m, p as int, c));
    }

    /// Removes the line at position `p`; every later line shifts up by one.
    pub fn delete_at(&mut self, p: i64)
        requires
            positions(old(self)@).contains_key(p as int),
        ensures
            final(self)@.lid == old(self)@.lid,
            final(self)@.secid == old(self)@.secid,
            final(self)@.entries.len() == old(self)@.entries.len() - 1,
            final(self)@.titled == old(self)@.titled,
            positions(final(self)@) == deleted(positions(old(self)@), p as int),
    {
        let ghost m = positions(self@);
        let ghost old_entries = self@.entries;
        let ghost f = first_pos(self.titled);
        assert(m.contains_key(p as int));
        assert(f <= p < f + old_entries.len());
        assert(old_entries.len() == self.entries.len());
        assert(self.titled ==> f == -1);
        assert(!self.titled ==> f == 0);
        let idx: usize = if p == -1 {
            0
        } else if self.titled {
            p as usize + 1
        } else {
            p as usize
        };
        assert(idx == p - f);
        self.entries.remove(idx);
        assert(self@.entries =~= old_entries.remove(p - f));
        assert(positions(self@) =~= deleted(m, p as int));
    }
}

} // verus!

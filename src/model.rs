use vstd::prelude::*;

verus! {

/// Registration data of a lecture: its display name, its key and when it was last updated.
pub struct CreateLecture {
    pub name: String,
    pub lid: String,
    pub updated: u64,
}

/// One stored line: lecture key, section id, position (-1 is the section title) and text.
pub struct Line {
    pub lid: String,
    pub secid: u32,
    pub lineno: i64,
    pub data: String,
}

/// A reconstructed section: its title and its body lines in position order.
pub struct Section {
    pub name: String,
    pub lines: Vec<String>,
}

/// A reconstructed lecture: its sections in ascending section id order.
pub struct LectureData {
    pub sections: Vec<Section>,
}

/// Why an edit of the line store was refused.
#[derive(Debug, Clone, Copy, PartialEq, Eq, Structural)]
pub enum StoreError {
    /// A storage constraint was violated (a lecture key registered twice).
    StorageFailure,
    /// The line to delete does not exist.
    NotFound,
    /// The position is malformed, or would leave a gap in the section.
    ValidationFailure,
}

/// Position map of a section: position to content.
pub type Positions = Map<int, Seq<char>>;

/// Lines at positions `>= p` move one place down; position `p` becomes free.
pub open spec fn shift_up(m: Positions, p: int) -> Positions {
    Map::new(
        |q: int| (q < p && m.contains_key(q)) || (q > p && m.contains_key(q - 1)),
        |q: int| if q < p { m[q] } else { m[q - 1] },
    )
}

/// The position map after inserting `c` at `p`: when a line occupies `p`, it and every
/// later line shift down by one; otherwise (appending, or a new title) nothing moves.
pub open spec fn inserted(m: Positions, p: int, c: Seq<char>) -> Positions {
    if m.contains_key(p) {
        shift_up(m, p).insert(p, c)
    } else {
        m.insert(p, c)
    }
}

/// The position map after deleting the line at `p`: every later line shifts up by one.
pub open spec fn deleted(m: Positions, p: int) -> Positions {
    Map::new(
        |q: int| (q < p && m.contains_key(q)) || (q >= p && m.contains_key(q + 1)),
        |q: int| if q < p { m[q] } else { m[q + 1] },
    )
}

/// An insert at `p` keeps the section gap-free: `p` is the title slot, an occupied body
/// position, or the position just past the last body line.
pub open spec fn insert_allowed(m: Positions, p: int) -> bool {
    p == -1 || (p >= 0 && (p == 0 || m.contains_key(p) || m.contains_key(p - 1)))
}

/// The section can take one more line: its last position is below `i64::MAX`, so every
/// position after a shift is still an `i64`.
pub open spec fn has_room(m: Positions) -> bool {
    !m.contains_key(i64::MAX as int)
}

/// Body positions of the map are exactly `0..n`.
pub open spec fn body_is(m: Positions, n: int) -> bool {
    forall|q: int| q >= 0 ==> (m.contains_key(q) <==> q < n)
}

/// The map is a gap-free section: only the title sentinel lies below zero, and the body
/// positions form a contiguous run from zero.
pub open spec fn gap_free(m: Positions) -> bool {
    &&& forall|q: int| q < -1 ==> !m.contains_key(q)
    &&& exists|n: int| n >= 0 && body_is(m, n)
}

} // verus!

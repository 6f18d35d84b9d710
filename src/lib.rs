//! Ordered-line storage for lecture documents: sections of lines kept at dense,
//! gap-free positions under positional insert and delete, and the reconstruction of
//! a lecture into titled sections.

pub mod assemble;
pub mod laws;
pub mod model;
pub mod section;
pub mod store;

pub use model::{CreateLecture, LectureData, Line, Section, StoreError};
pub use store::{LectureStore, LineStore};

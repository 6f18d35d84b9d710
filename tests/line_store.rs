use lecture_store::{CreateLecture, LectureData, Line, LineStore, StoreError};

fn line(lid: &str, secid: u32, lineno: i64, data: &str) -> Line {
    Line { lid: lid.to_string(), secid, lineno, data: data.to_string() }
}

fn ins(store: &mut LineStore, lid: &str, secid: u32, lineno: i64, data: &str) -> Result<(), StoreError> {
    store.insert_line(line(lid, secid, lineno, data))
}

fn del(store: &mut LineStore, lid: &str, secid: u32, lineno: i64) -> Result<(), StoreError> {
    store.delete_line(line(lid, secid, lineno, ""))
}

fn rows(store: &LineStore, lid: &str) -> Vec<(u32, i64, String)> {
    store.fetch_ordered_lines(lid)
}

fn section_body(doc: &LectureData, idx: usize) -> Vec<String> {
    doc.sections[idx].lines.clone()
}

#[test]
fn insert_then_delete_scenario() {
    let mut s = LineStore::new();
    assert_eq!(ins(&mut s, "doc1", 0, 0, "A"), Ok(()));
    assert_eq!(ins(&mut s, "doc1", 0, 1, "B"), Ok(()));
    assert_eq!(ins(&mut s, "doc1", 0, 1, "C"), Ok(()));
    let doc = s.get_lecture_struct("doc1");
    assert_eq!(doc.sections.len(), 1);
    assert_eq!(section_body(&doc, 0), vec!["A", "C", "B"]);
    assert_eq!(del(&mut s, "doc1", 0, 0), Ok(()));
    let doc = s.get_lecture_struct("doc1");
    assert_eq!(section_body(&doc, 0), vec!["C", "B"]);
    assert_eq!(rows(&s, "doc1"), vec![(0, 0, "C".to_string()), (0, 1, "B".to_string())]);
}

#[test]
fn title_only_section() {
    let mut s = LineStore::new();
    assert_eq!(ins(&mut s, "doc1", 0, -1, "Intro"), Ok(()));
    let doc = s.get_lecture_struct("doc1");
    assert_eq!(doc.sections.len(), 1);
    assert_eq!(doc.sections[0].name, "Intro");
    assert!(doc.sections[0].lines.is_empty());
}

#[test]
fn title_and_three_body_lines() {
    let mut s = LineStore::new();
    ins(&mut s, "d", 2, 0, "line0").unwrap();
    ins(&mut s, "d", 2, 1, "line1").unwrap();
    ins(&mut s, "d", 2, 2, "line2").unwrap();
    ins(&mut s, "d", 2, -1, "Heading").unwrap();
    let doc = s.get_lecture_struct("d");
    assert_eq!(doc.sections[0].name, "Heading");
    assert_eq!(section_body(&doc, 0), vec!["line0", "line1", "line2"]);
}

#[test]
fn missing_title_falls_back() {
    let mut s = LineStore::new();
    ins(&mut s, "d", 1, 0, "x").unwrap();
    ins(&mut s, "d", 1, 1, "y").unwrap();
    let doc = s.get_lecture_struct("d");
    assert_eq!(doc.sections[0].name, "Untitled Section");
    assert_eq!(section_body(&doc, 0), vec!["x", "y"]);
}

#[test]
fn insert_shifts_later_lines_only() {
    let mut s = LineStore::new();
    for (i, t) in ["a", "b", "c", "d"].iter().enumerate() {
        ins(&mut s, "k", 0, i as i64, t).unwrap();
    }
    ins(&mut s, "k", 0, 2, "new").unwrap();
    let expected: Vec<(u32, i64, String)> = vec![
        (0, 0, "a".to_string()),
        (0, 1, "b".to_string()),
        (0, 2, "new".to_string()),
        (0, 3, "c".to_string()),
        (0, 4, "d".to_string()),
    ];
    assert_eq!(rows(&s, "k"), expected);
}

#[test]
fn delete_shifts_later_lines_only() {
    let mut s = LineStore::new();
    for (i, t) in ["a", "b", "c", "d"].iter().enumerate() {
        ins(&mut s, "k", 0, i as i64, t).unwrap();
    }
    del(&mut s, "k", 0, 1).unwrap();
    let expected: Vec<(u32, i64, String)> =
        vec![(0, 0, "a".to_string()), (0, 1, "c".to_string()), (0, 2, "d".to_string())];
    assert_eq!(rows(&s, "k"), expected);
}

#[test]
fn positions_stay_gap_free_after_mixed_edits() {
    let mut s = LineStore::new();
    ins(&mut s, "g", 3, 0, "one").unwrap();
    ins(&mut s, "g", 3, 0, "zero").unwrap();
    ins(&mut s, "g", 3, 2, "two").unwrap();
    ins(&mut s, "g", 3, -1, "T").unwrap();
    del(&mut s, "g", 3, 1).unwrap();
    ins(&mut s, "g", 3, 1, "mid").unwrap();
    del(&mut s, "g", 3, 0).unwrap();
    let positions: Vec<i64> = rows(&s, "g").iter().map(|r| r.1).collect();
    assert_eq!(positions, vec![-1, 0, 1]);
    let texts: Vec<String> = rows(&s, "g").into_iter().map(|r| r.2).collect();
    assert_eq!(texts, vec!["T", "mid", "two"]);
}

#[test]
fn text_is_lines_in_section_then_position_order() {
    let mut s = LineStore::new();
    ins(&mut s, "t", 5, 0, "five-a").unwrap();
    ins(&mut s, "t", 1, 0, "one-b").unwrap();
    ins(&mut s, "t", 1, 0, "one-a").unwrap();
    ins(&mut s, "t", 5, 1, "five-b").unwrap();
    ins(&mut s, "other", 3, 0, "elsewhere").unwrap();
    assert_eq!(s.get_lecture("t"), "one-a\none-b\nfive-a\nfive-b\n");
    assert_eq!(s.get_lecture("missing"), "");
}

#[test]
fn sections_come_in_ascending_id_order() {
    let mut s = LineStore::new();
    ins(&mut s, "d", 9, -1, "Nine").unwrap();
    ins(&mut s, "d", 0, -1, "Zero").unwrap();
    ins(&mut s, "d", 4, 0, "body").unwrap();
    ins(&mut s, "e", 2, -1, "Other lecture").unwrap();
    let doc = s.get_lecture_struct("d");
    let names: Vec<String> = doc.sections.iter().map(|x| x.name.clone()).collect();
    assert_eq!(names, vec!["Zero", "Untitled Section", "Nine"]);
    assert_eq!(section_body(&doc, 1), vec!["body"]);
}

#[test]
fn insert_refuses_gaps_and_bad_positions() {
    let mut s = LineStore::new();
    assert_eq!(ins(&mut s, "d", 0, 1, "gap"), Err(StoreError::ValidationFailure));
    assert_eq!(ins(&mut s, "d", 0, -2, "bad"), Err(StoreError::ValidationFailure));
    ins(&mut s, "d", 0, 0, "a").unwrap();
    assert_eq!(ins(&mut s, "d", 0, 2, "gap"), Err(StoreError::ValidationFailure));
    assert_eq!(ins(&mut s, "d", 0, 1, "b"), Ok(()));
    assert_eq!(s.get_lecture("d"), "a\nb\n");
}

#[test]
fn delete_reports_missing_lines() {
    let mut s = LineStore::new();
    assert_eq!(del(&mut s, "d", 0, 0), Err(StoreError::NotFound));
    ins(&mut s, "d", 0, 0, "a").unwrap();
    ins(&mut s, "d", 0, 1, "b").unwrap();
    assert_eq!(del(&mut s, "d", 0, 2), Err(StoreError::NotFound));
    assert_eq!(del(&mut s, "d", 0, -1), Err(StoreError::NotFound));
    assert_eq!(del(&mut s, "d", 0, -3), Err(StoreError::ValidationFailure));
    assert_eq!(s.get_lecture("d"), "a\nb\n");
}

#[test]
fn deleting_the_title_promotes_the_next_line() {
    let mut s = LineStore::new();
    ins(&mut s, "d", 0, -1, "Title").unwrap();
    ins(&mut s, "d", 0, 0, "first").unwrap();
    ins(&mut s, "d", 0, 1, "second").unwrap();
    del(&mut s, "d", 0, -1).unwrap();
    let doc = s.get_lecture_struct("d");
    assert_eq!(doc.sections[0].name, "first");
    assert_eq!(section_body(&doc, 0), vec!["second"]);
}

#[test]
fn inserting_at_title_slot_of_titled_section_shifts_old_title() {
    let mut s = LineStore::new();
    ins(&mut s, "d", 0, -1, "Old").unwrap();
    ins(&mut s, "d", 0, 0, "body").unwrap();
    ins(&mut s, "d", 0, -1, "New").unwrap();
    let doc = s.get_lecture_struct("d");
    assert_eq!(doc.sections[0].name, "New");
    assert_eq!(section_body(&doc, 0), vec!["Old", "body"]);
}

#[test]
fn emptied_section_disappears() {
    let mut s = LineStore::new();
    ins(&mut s, "d", 0, 0, "only").unwrap();
    del(&mut s, "d", 0, 0).unwrap();
    assert!(s.get_lecture_struct("d").sections.is_empty());
    assert!(rows(&s, "d").is_empty());
}

#[test]
fn lectures_register_once() {
    let mut s = LineStore::new();
    let a = CreateLecture { name: "Algebra".to_string(), lid: "k1".to_string(), updated: 10 };
    let b = CreateLecture { name: "Biology".to_string(), lid: "k2".to_string(), updated: 20 };
    let dup = CreateLecture { name: "Again".to_string(), lid: "k1".to_string(), updated: 30 };
    assert_eq!(s.insert_lecture(a), Ok(()));
    assert_eq!(s.insert_lecture(b), Ok(()));
    assert_eq!(s.insert_lecture(dup), Err(StoreError::StorageFailure));
    let all = s.get_lectures();
    assert_eq!(all.len(), 2);
    assert_eq!((all[0].name.as_str(), all[0].lid.as_str(), all[0].updated), ("Algebra", "k1", 10));
    assert_eq!((all[1].name.as_str(), all[1].lid.as_str(), all[1].updated), ("Biology", "k2", 20));
}

#[test]
fn lecture_key_lookup_is_exact() {
    let mut s = LineStore::new();
    ins(&mut s, "abc", 0, 0, "x").unwrap();
    ins(&mut s, "ab", 0, 0, "y").unwrap();
    assert_eq!(s.get_lecture("abc"), "x\n");
    assert_eq!(s.get_lecture("ab"), "y\n");
}

use lecture_store::assemble::assemble_lecture;
use lecture_store::{Line, LineStore};

fn row(secid: u32, pos: i64, text: &str) -> (u32, i64, String) {
    (secid, pos, text.to_string())
}

#[test]
fn assembler_sorts_and_groups_unordered_rows() {
    let rows = vec![
        row(7, 1, "s7-b"),
        row(2, 0, "s2-a"),
        row(7, -1, "Seven"),
        row(2, 1, "s2-b"),
        row(7, 0, "s7-a"),
    ];
    let doc = assemble_lecture(rows);
    assert_eq!(doc.sections.len(), 2);
    assert_eq!(doc.sections[0].name, "Untitled Section");
    assert_eq!(doc.sections[0].lines, vec!["s2-a", "s2-b"]);
    assert_eq!(doc.sections[1].name, "Seven");
    assert_eq!(doc.sections[1].lines, vec!["s7-a", "s7-b"]);
}

#[test]
fn assembler_title_resolution() {
    let rows = vec![row(0, 2, "line2"), row(0, 0, "line0"), row(0, -1, "Title"), row(0, 1, "line1")];
    let doc = assemble_lecture(rows);
    assert_eq!(doc.sections.len(), 1);
    assert_eq!(doc.sections[0].name, "Title");
    assert_eq!(doc.sections[0].lines, vec!["line0", "line1", "line2"]);
}

#[test]
fn assembler_without_rows_is_empty() {
    assert!(assemble_lecture(Vec::new()).sections.is_empty());
}

#[test]
fn assembler_title_only_section() {
    let doc = assemble_lecture(vec![row(3, -1, "Intro")]);
    assert_eq!(doc.sections[0].name, "Intro");
    assert!(doc.sections[0].lines.is_empty());
}

#[test]
fn assembler_agrees_with_store_reconstruction() {
    let mut s = LineStore::new();
    let edits: [(u32, i64, &str); 6] =
        [(4, 0, "x"), (4, -1, "Four"), (1, 0, "p"), (1, 1, "q"), (1, 1, "r"), (4, 1, "y")];
    for (secid, pos, text) in edits.iter() {
        let line = Line { lid: "lec".to_string(), secid: *secid, lineno: *pos, data: text.to_string() };
        s.insert_line(line).unwrap();
    }
    let direct = s.get_lecture_struct("lec");
    let mut rows = s.fetch_ordered_lines("lec");
    rows.reverse();
    let rebuilt = assemble_lecture(rows);
    assert_eq!(direct.sections.len(), rebuilt.sections.len());
    for (a, b) in direct.sections.iter().zip(rebuilt.sections.iter()) {
        assert_eq!(a.name, b.name);
        assert_eq!(a.lines, b.lines);
    }
    assert_eq!(rebuilt.sections[0].lines, vec!["p", "r", "q"]);
    assert_eq!(rebuilt.sections[1].name, "Four");
}

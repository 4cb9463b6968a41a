use promptlab::diff::{chunks_from_changes, compute_diff, DiffTag, LineChange};

fn lines(v: &[&str]) -> Vec<String> {
    v.iter().map(|s| s.to_string()).collect()
}

#[test]
fn replacement_gives_delete_then_insert() {
    let chunks = compute_diff("A\nB\nC\n", "A\nX\nC\n");
    assert_eq!(chunks.len(), 4);
    assert_eq!(chunks[0].tag, DiffTag::Equal);
    assert_eq!(chunks[0].lines, lines(&["A\n"]));
    assert_eq!((chunks[0].old_start, chunks[0].old_end, chunks[0].new_start, chunks[0].new_end), (0, 1, 0, 1));
    assert_eq!(chunks[1].tag, DiffTag::Delete);
    assert_eq!(chunks[1].lines, lines(&["B\n"]));
    assert_eq!((chunks[1].old_start, chunks[1].old_end, chunks[1].new_start, chunks[1].new_end), (1, 2, 1, 1));
    assert_eq!(chunks[2].tag, DiffTag::Insert);
    assert_eq!(chunks[2].lines, lines(&["X\n"]));
    assert_eq!((chunks[2].old_start, chunks[2].old_end, chunks[2].new_start, chunks[2].new_end), (2, 2, 1, 2));
    assert_eq!(chunks[3].tag, DiffTag::Equal);
    assert_eq!(chunks[3].lines, lines(&["C\n"]));
    assert_eq!((chunks[3].old_start, chunks[3].old_end, chunks[3].new_start, chunks[3].new_end), (2, 3, 2, 3));
}

#[test]
fn identical_texts_give_one_equal_chunk() {
    let text = "one\ntwo\nthree";
    let chunks = compute_diff(text, text);
    assert_eq!(chunks.len(), 1);
    assert_eq!(chunks[0].tag, DiffTag::Equal);
    assert_eq!(chunks[0].lines, lines(&["one\n", "two\n", "three"]));
    assert_eq!((chunks[0].old_start, chunks[0].old_end, chunks[0].new_start, chunks[0].new_end), (0, 3, 0, 3));
}

#[test]
fn empty_texts_give_no_chunk() {
    assert!(compute_diff("", "").is_empty());
}

#[test]
fn appended_lines_form_one_insert_run() {
    let chunks = compute_diff("a\n", "a\nb\nc\n");
    assert_eq!(chunks.len(), 2);
    assert_eq!(chunks[1].tag, DiffTag::Insert);
    assert_eq!(chunks[1].lines, lines(&["b\n", "c\n"]));
    assert_eq!((chunks[1].old_start, chunks[1].old_end, chunks[1].new_start, chunks[1].new_end), (1, 1, 1, 3));
}

#[test]
fn everything_removed_is_one_delete_run() {
    let chunks = compute_diff("x\ny\n", "");
    assert_eq!(chunks.len(), 1);
    assert_eq!(chunks[0].tag, DiffTag::Delete);
    assert_eq!((chunks[0].old_start, chunks[0].old_end, chunks[0].new_start, chunks[0].new_end), (0, 2, 0, 0));
}

#[test]
fn line_ending_differences_are_kept() {
    let chunks = compute_diff("a\r\n", "a\n");
    assert_eq!(chunks.len(), 2);
    assert_eq!(chunks[0].lines, lines(&["a\r\n"]));
    assert_eq!(chunks[1].lines, lines(&["a\n"]));
}

#[test]
fn merging_keeps_runs_maximal() {
    let changes = vec![
        LineChange { tag: DiffTag::Equal, line: "a\n".to_string() },
        LineChange { tag: DiffTag::Equal, line: "b\n".to_string() },
        LineChange { tag: DiffTag::Delete, line: "c\n".to_string() },
        LineChange { tag: DiffTag::Delete, line: "d\n".to_string() },
        LineChange { tag: DiffTag::Insert, line: "e\n".to_string() },
        LineChange { tag: DiffTag::Equal, line: "f\n".to_string() },
    ];
    let chunks = chunks_from_changes(&changes);
    assert_eq!(chunks.len(), 4);
    assert_eq!(chunks[0].lines.len(), 2);
    assert_eq!((chunks[1].old_start, chunks[1].old_end, chunks[1].new_start, chunks[1].new_end), (2, 4, 2, 2));
    assert_eq!((chunks[2].old_start, chunks[2].old_end, chunks[2].new_start, chunks[2].new_end), (4, 4, 2, 3));
    assert_eq!((chunks[3].old_start, chunks[3].old_end, chunks[3].new_start, chunks[3].new_end), (4, 5, 3, 4));
}

#[test]
fn tag_names() {
    assert_eq!(DiffTag::Equal.as_str(), "equal");
    assert_eq!(DiffTag::Insert.as_str(), "insert");
    assert_eq!(DiffTag::Delete.as_str(), "delete");
}

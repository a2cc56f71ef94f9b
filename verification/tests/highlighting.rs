use silt_lua::compiler::lsp;

#[test]
fn marks_without_formatting() {
    let out = lsp("local x = 1", false);
    assert_eq!(out.legend, vec!["keyword", "op", "number", "bool", "nil", "string", "comment"]);
    assert_eq!(out.map, vec![(0, 5, 1), (6, 1, 0), (8, 1, 2), (10, 1, 3)]);
    assert_eq!(out.indented, "local x = 1");
}

#[test]
fn formatting_indents_blocks_with_tabs() {
    let out = lsp("if a then\nb()\nend", true);
    assert_eq!(out.indented, "if a then\n\tb()\nend");
    assert_eq!(out.map, vec![(0, 2, 1), (3, 1, 0), (5, 4, 1), (10, 1, 0), (11, 1, 0), (12, 1, 0), (14, 3, 1)]);
}

#[test]
fn squashed_indentation_shifts_later_marks() {
    let out = lsp("x\n   y", true);
    assert_eq!(out.indented, "x\ny");
    assert_eq!(out.map, vec![(0, 1, 0), (2, 1, 0)]);
    let plain = lsp("x\n   y", false);
    assert_eq!(plain.map, vec![(0, 1, 0), (5, 1, 0)]);
    assert_eq!(plain.indented, "x\n   y");
}

#[test]
fn kinds_of_tokens() {
    let out = lsp("return true, nil, 'a', 2.5", false);
    let kinds: Vec<u8> = out.map.iter().map(|m| m.2).collect();
    assert_eq!(kinds, vec![1, 4, 0, 5, 0, 6, 0, 3]);
}

#[test]
fn rejected_tokens_are_skipped() {
    let out = lsp("@ x", false);
    assert_eq!(out.map, vec![(2, 1, 0)]);
}

#[test]
fn trailing_text_is_kept() {
    let out = lsp("x -- done", true);
    assert_eq!(out.indented, "x -- done");
    assert_eq!(out.map, vec![(0, 1, 0)]);
}

#[test]
fn output_written_out() {
    let out = lsp("x", false);
    assert_eq!(
        out.to_string(),
        "legend [keyword,op,number,bool,nil,string,comment],\n map \n(0 1 0),x\n"
    );
}

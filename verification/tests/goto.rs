use kak_lsp::language_features::goto::{
    goto_location, goto_locations, goto_locations_of, GotoResponse, Location, LocationLink,
};
use kak_lsp::types::{OffsetEncoding, Position, Range};

fn range(l1: u32, c1: u32, l2: u32, c2: u32) -> Range {
    Range { start: Position { line: l1, character: c1 }, end: Position { line: l2, character: c2 } }
}

fn location(path: &str, r: Range) -> Location {
    Location { uri: format!("file://{}", path), path: path.to_string(), range: r }
}

#[test]
fn goto_takes_each_answer_once() {
    let a = location("/root/src/a.rs", range(1, 4, 1, 5));
    let c = location("/other/c.rs", range(0, 0, 0, 3));
    let link = LocationLink {
        origin_selection_range: None,
        target_uri: "file:///root/b.rs".to_string(),
        target_path: "/root/b.rs".to_string(),
        target_range: range(2, 0, 5, 1),
        target_selection_range: range(2, 3, 2, 6),
    };
    let responses = vec![
        (0, Some(GotoResponse::Scalar(a.clone()))),
        (1, Some(GotoResponse::Scalar(a.clone()))),
        (2, Some(GotoResponse::Link(vec![link]))),
        (3, None),
        (4, Some(GotoResponse::Array(vec![a.clone(), c.clone()]))),
    ];
    let found: Vec<(usize, String, Range)> =
        goto_locations_of(&responses).into_iter().map(|(s, l)| (s, l.path, l.range)).collect();
    assert_eq!(
        found,
        vec![
            (0, "/root/src/a.rs".to_string(), range(1, 4, 1, 5)),
            (2, "/root/b.rs".to_string(), range(2, 3, 2, 6)),
            (4, "/root/src/a.rs".to_string(), range(1, 4, 1, 5)),
            (4, "/other/c.rs".to_string(), range(0, 0, 0, 3)),
        ]
    );
}

#[test]
fn goto_jumps_to_the_one_location() {
    let text = ropey::Rope::from_str("fn main() {\n    let x = 1;\n}\n");
    assert_eq!(
        goto_location("/root/src/a.rs", &range(1, 4, 1, 5), &text, OffsetEncoding::Utf8),
        "evaluate-commands -try-client %opt{jumpclient} -- 'edit -existing ''/root/src/a.rs''\nselect 2.5,2.5\nexecute-keys <c-s>vv'"
    );
}

#[test]
fn goto_lists_locations() {
    let locations = vec![
        (0, location("/root/src/a.rs", range(1, 4, 1, 5))),
        (1, location("/other/c.rs", range(0, 0, 0, 3))),
        (1, location("/root/d.rs", range(9, 0, 9, 1))),
        (1, location("/root/e.rs", range(0, 0, 0, 1))),
    ];
    let contents = vec![
        Some(ropey::Rope::from_str("fn main() {\n    let x = 1;\n}\n")),
        Some(ropey::Rope::from_str("use c;\n")),
        Some(ropey::Rope::from_str("d\n")),
        None,
    ];
    let encs = vec![OffsetEncoding::Utf8; 4];
    assert_eq!(
        goto_locations("/root", &locations, &contents, &encs),
        "lsp-show-goto-choices '/root' 'src/a.rs:2:5:    let x = 1;\n/other/c.rs:1:1:use c;\n'"
    );
}

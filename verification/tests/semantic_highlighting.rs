use kak_lsp::language_features::semantic_highlighting::map_scopes_to_faces;

#[test]
fn map_scopes_to_faces_should_map_unknown_scope_to_empty_face() {
    let scopes = vec![vec![String::from("just.noise")], vec![String::from("some.scope")]];
    let faces = vec![(String::from("some.another.scope"), String::from("some.face"))];
    let faces = map_scopes_to_faces(&scopes, &faces);
    assert_eq!(Some(&String::from("")), faces.get(1));
}

#[test]
fn map_scopes_to_faces_should_map_scope_by_prefix() {
    let scopes = vec![
        vec![String::from("just.noise")],
        vec![String::from("some.non-matching.scope"), String::from("some.nested.scope")],
    ];
    let faces = vec![(String::from("some.nested"), String::from("some.face"))];
    let faces = map_scopes_to_faces(&scopes, &faces);
    assert_eq!(Some(&String::from("some.face")), faces.get(1));
}

#[test]
fn map_scopes_to_faces_should_map_scope_by_longest_prefix() {
    let scopes = vec![
        vec![String::from("just.noise")],
        vec![String::from("some.scope.matching.short.prefix"), String::from("some.nested.scope")],
    ];
    let faces = vec![
        (String::from("some"), String::from("some")),
        (String::from("some.nested"), String::from("some.face")),
    ];
    let faces = map_scopes_to_faces(&scopes, &faces);
    assert_eq!(Some(&String::from("some.face")), faces.get(1));
}

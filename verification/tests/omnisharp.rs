use kak_lsp::language_features::omnisharp::{
    definition_target, metadata_source_path, strip_str_prefix, Definition, DefinitionTarget, Location, MetadataResponse,
    MetadataSource, Point, Range,
};

fn definition(file_name: &str, metadata: bool) -> Definition {
    let p = Point { line: 1, column: 2 };
    Definition {
        location: Location { file_name: file_name.to_string(), range: Range { start: p, end: p } },
        metadata_source: if metadata {
            Some(MetadataSource {
                assembly_name: "System.Runtime".to_string(),
                project_name: "p".to_string(),
                version_number: None,
                language: None,
                source_type_name: None,
            })
        } else {
            None
        },
        source_generated_file_info: None,
    }
}

#[test]
fn definitions_are_read_from_their_source() {
    assert!(matches!(definition_target(&definition("/src/A.cs", true)), DefinitionTarget::FetchMetadata));
    match definition_target(&definition("$metadata$/Project/System.cs", false)) {
        DefinitionTarget::MetadataFile(rest) => assert_eq!(rest, "/Project/System.cs"),
        _ => panic!("expected a metadata file"),
    }
    match definition_target(&definition("/src/A.cs", false)) {
        DefinitionTarget::File(name) => assert_eq!(name, "/src/A.cs"),
        _ => panic!("expected a file"),
    }
}

#[test]
fn metadata_sources_are_written_without_their_prefix() {
    let r = MetadataResponse { source_name: "$metadata$/Project/System.cs".to_string(), source: String::new() };
    assert_eq!(metadata_source_path(&r), Some("Project/System.cs".to_string()));
    let r = MetadataResponse { source_name: "Project/System.cs".to_string(), source: String::new() };
    assert_eq!(metadata_source_path(&r), None);
    assert_eq!(strip_str_prefix("ab", "abc"), None);
    assert_eq!(strip_str_prefix("abc", ""), Some("abc".to_string()));
}

//! OmniSharp's own requests: going to definitions, including into metadata
//! and generated sources.

use vstd::prelude::*;
use crate::strings::{chars_of, push_char};

verus! {

/// A point in a file, as OmniSharp gives it: zero-based line and column.
#[derive(Clone, Copy, Debug, PartialEq, Eq, Structural)]
pub struct Point {
    pub line: u32,
    pub column: u32,
}

/// A range in a file, as OmniSharp gives it.
#[derive(Clone, Copy, Debug, PartialEq, Eq, Structural)]
pub struct Range {
    pub start: Point,
    pub end: Point,
}

impl Point {
    /// The LSP position of the point: same line, the column as character.
    pub fn to_position(&self) -> (res: crate::types::Position)
        ensures
            res.line == self.line,
            res.character == self.column,
    {
        crate::types::Position { line: self.line, character: self.column }
    }
}

impl Range {
    /// The LSP range of the range.
    pub fn to_range(&self) -> (res: crate::types::Range)
        ensures
            res.start.line == self.start.line,
            res.start.character == self.start.column,
            res.end.line == self.end.line,
            res.end.character == self.end.column,
    {
        crate::types::Range { start: self.start.to_position(), end: self.end.to_position() }
    }
}

/// A range in a named file.
#[derive(Clone, Debug)]
pub struct Location {
    pub file_name: String,
    pub range: Range,
}

/// A text change over a span of lines and columns.
#[derive(Clone, Debug)]
pub struct LinePositionSpanTextChange {
    pub new_text: String,
    pub start_line: u32,
    pub start_column: u32,
    pub end_line: u32,
    pub end_column: u32,
}

/// Where a definition's source comes from when it is compiled metadata.
#[derive(Clone, Debug)]
pub struct MetadataSource {
    pub assembly_name: String,
    pub project_name: String,
    pub version_number: Option<String>,
    pub language: Option<String>,
    pub source_type_name: Option<String>,
}

/// Where a definition's source comes from when it is generated.
#[derive(Clone, Debug)]
pub struct SourceGeneratedFileInfo {
    pub project_guid: String,
    pub document_guid: String,
}

/// A definition found by OmniSharp.
#[derive(Clone, Debug)]
pub struct Definition {
    pub location: Location,
    pub metadata_source: Option<MetadataSource>,
    pub source_generated_file_info: Option<SourceGeneratedFileInfo>,
}

/// The `o#/v2/gotodefinition` request.
pub struct GoToDefinition;

/// The parameters of `o#/v2/gotodefinition`.
#[derive(Clone, Debug)]
pub struct GoToDefinitionParams {
    pub file_name: String,
    pub line: Option<u32>,
    pub column: Option<u32>,
    pub buffer: Option<String>,
    pub changes: Option<Vec<LinePositionSpanTextChange>>,
    pub apply_changes_together: Option<bool>,
    pub want_metadata: Option<bool>,
}

/// The response to `o#/v2/gotodefinition`.
#[derive(Clone, Debug)]
pub struct GoToDefinitionResponse {
    pub definitions: Option<Vec<Definition>>,
}

/// The `o#/metadata` request.
pub struct Metadata;

/// The parameters of `o#/metadata`.
#[derive(Clone, Debug)]
pub struct MetadataParams {
    pub metadata_source: MetadataSource,
    pub timeout: Option<u32>,
}

/// The response to `o#/metadata`.
#[derive(Clone, Debug)]
pub struct MetadataResponse {
    pub source_name: String,
    pub source: String,
}

/// The request for a generated source file.
pub struct SourceGeneratedFile;

/// The parameters of the request for a generated source file.
#[derive(Clone, Debug)]
pub struct SourceGeneratedFileParams {
    pub metadata_source: SourceGeneratedFileInfo,
}

/// The response to the request for a generated source file.
#[derive(Clone, Debug)]
pub struct SourceGeneratedFileResponse {
    pub source: String,
    pub source_name: String,
}

/// The method name of `GoToDefinition`.
pub fn go_to_definition_method() -> (res: &'static str)
    ensures
        res@ == "o#/v2/gotodefinition"@,
{
    "o#/v2/gotodefinition"
}

/// The method name of `Metadata` and of `SourceGeneratedFile`.
pub fn metadata_method() -> (res: &'static str)
    ensures
        res@ == "o#/metadata"@,
{
    "o#/metadata"
}

/// `s` without its prefix `prefix`, or `None` where it does not start so.
pub open spec fn strip_prefix_of(s: Seq<char>, prefix: Seq<char>) -> Option<Seq<char>> {
    if prefix.len() <= s.len() && s.take(prefix.len() as int) == prefix {
        Some(s.skip(prefix.len() as int))
    } else {
        None
    }
}

/// See `strip_prefix_of`.
pub fn strip_str_prefix(s: &str, prefix: &str) -> (res: Option<String>)
    ensures
        match res {
            Some(r) => strip_prefix_of(s@, prefix@) == Some(r@),
            None => strip_prefix_of(s@, prefix@) is None,
        },
{
    let x = chars_of(s);
    let p = chars_of(prefix);
    if p.len() > x.len() {
        return None;
    }
    let mut i: usize = 0;
    while i < p.len()
        invariant
            i <= p.len() <= x.len(),
            x@ == s@,
            p@ == prefix@,
            forall|j: int| 0 <= j < i ==> x@[j] == p@[j],
        decreases p.len() - i,
    {
        if x[i] != p[i] {
            proof {
                assert(s@.take(prefix@.len() as int)[i as int] != prefix@[i as int]);
            }
            return None;
        }
        i += 1;
    }
    assert(s@.take(prefix@.len() as int) =~= prefix@);
    let mut out = String::new();
    let mut k: usize = p.len();
    while k < x.len()
        invariant
            p.len() <= k <= x.len(),
            x@ == s@,
            p@ == prefix@,
            out@ == s@.subrange(p.len() as int, k as int),
        decreases x.len() - k,
    {
        push_char(&mut out, x[k]);
        proof {
            assert(s@.subrange(p.len() as int, k + 1) =~= s@.subrange(p.len() as int, k as int).push(s@[k as int]));
        }
        k += 1;
    }
    assert(s@.subrange(p.len() as int, x.len() as int) =~= s@.skip(prefix@.len() as int));
    Some(out)
}

/// Where a definition's source is read from.
pub enum DefinitionTarget {
    /// Compiled metadata: its source is asked for first, and written under
    /// the session's metadata directory.
    FetchMetadata,
    /// A file under the session's metadata directory, at this path within it.
    MetadataFile(String),
    /// The file the definition names.
    File(String),
}

/// A target as values.
pub enum DefinitionTargetView {
    FetchMetadata,
    MetadataFile(Seq<char>),
    File(Seq<char>),
}

impl DefinitionTarget {
    pub open spec fn view(&self) -> DefinitionTargetView {
        match self {
            DefinitionTarget::FetchMetadata => DefinitionTargetView::FetchMetadata,
            DefinitionTarget::MetadataFile(p) => DefinitionTargetView::MetadataFile(p@),
            DefinitionTarget::File(p) => DefinitionTargetView::File(p@),
        }
    }
}

/// The target of a definition that has a metadata source or not, in the
/// named file: metadata is fetched; a file named under `$metadata$` lies in
/// the metadata directory; any other file is read where it is.
pub open spec fn definition_target_of(has_metadata_source: bool, file_name: Seq<char>) -> DefinitionTargetView {
    if has_metadata_source {
        DefinitionTargetView::FetchMetadata
    } else {
        match strip_prefix_of(file_name, "$metadata$"@) {
            Some(rest) => DefinitionTargetView::MetadataFile(rest),
            None => DefinitionTargetView::File(file_name),
        }
    }
}

/// See `definition_target_of`.
pub fn definition_target(definition: &Definition) -> (res: DefinitionTarget)
    ensures
        res@ == definition_target_of(definition.metadata_source is Some, definition.location.file_name@),
{
    if definition.metadata_source.is_some() {
        return DefinitionTarget::FetchMetadata;
    }
    match strip_str_prefix(definition.location.file_name.as_str(), "$metadata$") {
        Some(rest) => DefinitionTarget::MetadataFile(rest),
        None => DefinitionTarget::File(definition.location.file_name.clone()),
    }
}

/// Where the source of fetched metadata is written, within the metadata
/// directory: its name without the leading `$metadata$/`, or `None` for a
/// name without it.
pub fn metadata_source_path(response: &MetadataResponse) -> (res: Option<String>)
    ensures
        match res {
            Some(r) => strip_prefix_of(response.source_name@, "$metadata$/"@) == Some(r@),
            None => strip_prefix_of(response.source_name@, "$metadata$/"@) is None,
        },
{
    strip_str_prefix(response.source_name.as_str(), "$metadata$/")
}

} // verus!

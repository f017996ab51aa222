//! ccls's semantic highlighting: the faces of the symbols it reports, and
//! the option that highlights their ranges.

use vstd::prelude::*;
use ropey::Rope;
use crate::diagnostics::{int_decimal, push_int};
use crate::position::{lsp_range_convertible, lsp_range_to_kakoune, range_defined, range_to_kakoune};
use crate::rope::rope_lines;
use crate::strings::{push_char, push_str};
use crate::text_edit::join_spaced;
use crate::types::{kakoune_range_text, OffsetEncoding, Range};
use crate::util::{editor_quote, editor_quote_spec};

verus! {

/// How a symbol is stored, as ccls numbers it (`NoClass` for a number it does
/// not use).
#[derive(Clone, Copy, Debug, PartialEq, Eq, Structural)]
pub enum StorageClass {
    NoClass,
    Extern,
    Static,
    PrivateExtern,
    Auto,
    Register,
}

/// The number of a storage class.
pub open spec fn storage_code(s: StorageClass) -> u8 {
    match s {
        StorageClass::NoClass => 0,
        StorageClass::Extern => 1,
        StorageClass::Static => 2,
        StorageClass::PrivateExtern => 3,
        StorageClass::Auto => 4,
        StorageClass::Register => 5,
    }
}

impl StorageClass {
    /// The storage class with a number; `NoClass` for a number no class has.
    pub fn from_code(n: u8) -> (res: StorageClass)
        ensures
            storage_code(res) == n || (res == StorageClass::NoClass && forall|s: StorageClass| storage_code(s) != n),
    {
        match n {
            1 => StorageClass::Extern,
            2 => StorageClass::Static,
            3 => StorageClass::PrivateExtern,
            4 => StorageClass::Auto,
            5 => StorageClass::Register,
            _ => {
                proof {
                    assert forall|s: StorageClass| n != 0 implies storage_code(s) != n by {
                        match s {
                            StorageClass::NoClass => {},
                            StorageClass::Extern => {},
                            StorageClass::Static => {},
                            StorageClass::PrivateExtern => {},
                            StorageClass::Auto => {},
                            StorageClass::Register => {},
                        }
                    }
                }
                StorageClass::NoClass
            },
        }
    }

    /// The class's number.
    pub fn code(&self) -> (res: u8)
        ensures
            res == storage_code(*self),
    {
        match self {
            StorageClass::NoClass => 0,
            StorageClass::Extern => 1,
            StorageClass::Static => 2,
            StorageClass::PrivateExtern => 3,
            StorageClass::Auto => 4,
            StorageClass::Register => 5,
        }
    }
}

/// The kind of a symbol, as ccls and cquery number them (`Unknown` for a
/// number they do not use).
#[derive(Clone, Copy, Debug, PartialEq, Eq, Structural)]
pub enum SemanticSymbolKind {
    Unknown,
    File,
    Module,
    Namespace,
    Package,
    Class,
    Method,
    Property,
    Field,
    Constructor,
    Enum,
    Interface,
    Function,
    Variable,
    Constant,
    String,
    Number,
    Boolean,
    Array,
    Object,
    Key,
    Null,
    EnumMember,
    Struct,
    Event,
    Operator,
    TypeParameter,
    TypeAlias,
    Parameter,
    StaticMethod,
    Macro,
}

/// The number of a symbol kind.
pub open spec fn kind_code(k: SemanticSymbolKind) -> u8 {
    match k {
        SemanticSymbolKind::Unknown => 0,
        SemanticSymbolKind::File => 1,
        SemanticSymbolKind::Module => 2,
        SemanticSymbolKind::Namespace => 3,
        SemanticSymbolKind::Package => 4,
        SemanticSymbolKind::Class => 5,
        SemanticSymbolKind::Method => 6,
        SemanticSymbolKind::Property => 7,
        SemanticSymbolKind::Field => 8,
        SemanticSymbolKind::Constructor => 9,
        SemanticSymbolKind::Enum => 10,
        SemanticSymbolKind::Interface => 11,
        SemanticSymbolKind::Function => 12,
        SemanticSymbolKind::Variable => 13,
        SemanticSymbolKind::Constant => 14,
        SemanticSymbolKind::String => 15,
        SemanticSymbolKind::Number => 16,
        SemanticSymbolKind::Boolean => 17,
        SemanticSymbolKind::Array => 18,
        SemanticSymbolKind::Object => 19,
        SemanticSymbolKind::Key => 20,
        SemanticSymbolKind::Null => 21,
        SemanticSymbolKind::EnumMember => 22,
        SemanticSymbolKind::Struct => 23,
        SemanticSymbolKind::Event => 24,
        SemanticSymbolKind::Operator => 25,
        SemanticSymbolKind::TypeParameter => 26,
        SemanticSymbolKind::TypeAlias => 252,
        SemanticSymbolKind::Parameter => 253,
        SemanticSymbolKind::StaticMethod => 254,
        SemanticSymbolKind::Macro => 255,
    }
}

impl SemanticSymbolKind {
    /// The kind with a number; `Unknown` for a number no kind has.
    pub fn from_code(n: u8) -> (res: SemanticSymbolKind)
        ensures
            kind_code(res) == n || (res == SemanticSymbolKind::Unknown && forall|k: SemanticSymbolKind| kind_code(k) != n),
    {
        match n {
            1 => SemanticSymbolKind::File,
            2 => SemanticSymbolKind::Module,
            3 => SemanticSymbolKind::Namespace,
            4 => SemanticSymbolKind::Package,
            5 => SemanticSymbolKind::Class,
            6 => SemanticSymbolKind::Method,
            7 => SemanticSymbolKind::Property,
            8 => SemanticSymbolKind::Field,
            9 => SemanticSymbolKind::Constructor,
            10 => SemanticSymbolKind::Enum,
            11 => SemanticSymbolKind::Interface,
            12 => SemanticSymbolKind::Function,
            13 => SemanticSymbolKind::Variable,
            14 => SemanticSymbolKind::Constant,
            15 => SemanticSymbolKind::String,
            16 => SemanticSymbolKind::Number,
            17 => SemanticSymbolKind::Boolean,
            18 => SemanticSymbolKind::Array,
            19 => SemanticSymbolKind::Object,
            20 => SemanticSymbolKind::Key,
            21 => SemanticSymbolKind::Null,
            22 => SemanticSymbolKind::EnumMember,
            23 => SemanticSymbolKind::Struct,
            24 => SemanticSymbolKind::Event,
            25 => SemanticSymbolKind::Operator,
            26 => SemanticSymbolKind::TypeParameter,
            252 => SemanticSymbolKind::TypeAlias,
            253 => SemanticSymbolKind::Parameter,
            254 => SemanticSymbolKind::StaticMethod,
            255 => SemanticSymbolKind::Macro,
            _ => {
                proof {
                    assert forall|k: SemanticSymbolKind| n != 0 implies kind_code(k) != n by {
                        match k {
                            SemanticSymbolKind::Unknown => {},
                            _ => {},
                        }
                    }
                }
                SemanticSymbolKind::Unknown
            },
        }
    }

    /// The kind's number.
    pub fn code(&self) -> (res: u8)
        ensures
            res == kind_code(*self),
    {
        match self {
            SemanticSymbolKind::Unknown => 0,
            SemanticSymbolKind::File => 1,
            SemanticSymbolKind::Module => 2,
            SemanticSymbolKind::Namespace => 3,
            SemanticSymbolKind::Package => 4,
            SemanticSymbolKind::Class => 5,
            SemanticSymbolKind::Method => 6,
            SemanticSymbolKind::Property => 7,
            SemanticSymbolKind::Field => 8,
            SemanticSymbolKind::Constructor => 9,
            SemanticSymbolKind::Enum => 10,
            SemanticSymbolKind::Interface => 11,
            SemanticSymbolKind::Function => 12,
            SemanticSymbolKind::Variable => 13,
            SemanticSymbolKind::Constant => 14,
            SemanticSymbolKind::String => 15,
            SemanticSymbolKind::Number => 16,
            SemanticSymbolKind::Boolean => 17,
            SemanticSymbolKind::Array => 18,
            SemanticSymbolKind::Object => 19,
            SemanticSymbolKind::Key => 20,
            SemanticSymbolKind::Null => 21,
            SemanticSymbolKind::EnumMember => 22,
            SemanticSymbolKind::Struct => 23,
            SemanticSymbolKind::Event => 24,
            SemanticSymbolKind::Operator => 25,
            SemanticSymbolKind::TypeParameter => 26,
            SemanticSymbolKind::TypeAlias => 252,
            SemanticSymbolKind::Parameter => 253,
            SemanticSymbolKind::StaticMethod => 254,
            SemanticSymbolKind::Macro => 255,
        }
    }
}

/// The face of a symbol of kind `kind` inside one of kind `parent`, stored
/// statically or not; none for the kinds that are not highlighted.
pub open spec fn kind_face(kind: SemanticSymbolKind, parent: SemanticSymbolKind, static_storage: bool) -> Option<Seq<char>> {
    match kind {
        SemanticSymbolKind::Class | SemanticSymbolKind::Struct => Some("cqueryTypes"@),
        SemanticSymbolKind::Enum => Some("cqueryEnums"@),
        SemanticSymbolKind::TypeAlias => Some("cqueryTypeAliases"@),
        SemanticSymbolKind::TypeParameter => Some("cqueryTemplateParameters"@),
        SemanticSymbolKind::Function => Some("cqueryFreeStandingFunctions"@),
        SemanticSymbolKind::Method | SemanticSymbolKind::Constructor => Some("cqueryMemberFunctions"@),
        SemanticSymbolKind::StaticMethod => Some("cqueryStaticMemberFunctions"@),
        SemanticSymbolKind::Variable => if parent == SemanticSymbolKind::Function {
            Some("cqueryFreeStandingVariables"@)
        } else {
            Some("cqueryGlobalVariables"@)
        },
        SemanticSymbolKind::Field => if static_storage {
            Some("cqueryStaticMemberVariables"@)
        } else {
            Some("cqueryMemberVariables"@)
        },
        SemanticSymbolKind::Parameter => Some("cqueryParameters"@),
        SemanticSymbolKind::EnumMember => Some("cqueryEnumConstants"@),
        SemanticSymbolKind::Namespace => Some("cqueryNamespaces"@),
        SemanticSymbolKind::Macro => Some("cqueryMacros"@),
        _ => None,
    }
}

/// The face of a symbol; see `kind_face`.
pub(crate) fn face_for(kind: SemanticSymbolKind, parent: SemanticSymbolKind, static_storage: bool) -> (res: Option<&'static str>)
    ensures
        match kind_face(kind, parent, static_storage) {
            Some(f) => res matches Some(r) && r@ == f,
            None => res is None,
        },
{
    match kind {
        SemanticSymbolKind::Class | SemanticSymbolKind::Struct => Some("cqueryTypes"),
        SemanticSymbolKind::Enum => Some("cqueryEnums"),
        SemanticSymbolKind::TypeAlias => Some("cqueryTypeAliases"),
        SemanticSymbolKind::TypeParameter => Some("cqueryTemplateParameters"),
        SemanticSymbolKind::Function => Some("cqueryFreeStandingFunctions"),
        SemanticSymbolKind::Method | SemanticSymbolKind::Constructor => Some("cqueryMemberFunctions"),
        SemanticSymbolKind::StaticMethod => Some("cqueryStaticMemberFunctions"),
        SemanticSymbolKind::Variable => if parent == SemanticSymbolKind::Function {
            Some("cqueryFreeStandingVariables")
        } else {
            Some("cqueryGlobalVariables")
        },
        SemanticSymbolKind::Field => if static_storage {
            Some("cqueryStaticMemberVariables")
        } else {
            Some("cqueryMemberVariables")
        },
        SemanticSymbolKind::Parameter => Some("cqueryParameters"),
        SemanticSymbolKind::EnumMember => Some("cqueryEnumConstants"),
        SemanticSymbolKind::Namespace => Some("cqueryNamespaces"),
        SemanticSymbolKind::Macro => Some("cqueryMacros"),
        _ => None,
    }
}

/// A symbol that ccls reports for highlighting.
#[derive(Clone, Debug)]
pub struct SemanticSymbol {
    pub parent_kind: SemanticSymbolKind,
    pub kind: SemanticSymbolKind,
    pub is_type_member: Option<bool>,
    pub storage: StorageClass,
    pub ls_ranges: Vec<Range>,
}

/// The face of a ccls symbol, or nothing.
pub open spec fn symbol_face(s: SemanticSymbol) -> Option<Seq<char>> {
    kind_face(s.kind, s.parent_kind, s.storage == StorageClass::Static)
}

impl SemanticSymbol {
    /// The face of the symbol; empty for a kind that is not highlighted.
    pub fn get_face(&self) -> (res: String)
        ensures
            res@ == match symbol_face(*self) {
                Some(f) => f,
                None => Seq::empty(),
            },
    {
        match face_for(self.kind, self.parent_kind, self.storage == StorageClass::Static) {
            Some(f) => f.to_string(),
            None => String::new(),
        }
    }
}

/// The range-specs elements of one symbol's ranges in `face`.
pub open spec fn face_specs(face: Seq<char>, ranges: Seq<Range>, lines: Seq<Seq<char>>, enc: OffsetEncoding) -> Seq<Seq<char>> {
    ranges.map_values(|r: Range| kakoune_range_text(range_to_kakoune(r, lines, enc)) + seq!['|'] + face)
}

/// The elements of the symbols' ranges, a symbol without a face left out.
pub open spec fn symbols_specs(symbols: Seq<SemanticSymbol>, lines: Seq<Seq<char>>, enc: OffsetEncoding) -> Seq<Seq<char>>
    decreases symbols.len(),
{
    if symbols.len() == 0 {
        Seq::empty()
    } else {
        let s = symbols.last();
        symbols_specs(symbols.drop_last(), lines, enc) + match symbol_face(s) {
            Some(f) => face_specs(f, s.ls_ranges@, lines, enc),
            None => Seq::empty(),
        }
    }
}

/// The command that highlights the symbols of a buffer, for its version.
pub open spec fn highlighting_command(buffile: Seq<char>, version: i32, specs: Seq<Seq<char>>) -> Seq<char> {
    "evaluate-commands -buffer "@ + editor_quote_spec(buffile) + " -verbatim -- set-option buffer cquery_semhl "@
        + int_decimal(version as int) + seq![' '] + join_spaced(specs)
}

/// Whether every range converts to Kakoune's.
pub open spec fn ranges_convertible(ranges: Seq<Range>, lines: Seq<Seq<char>>, enc: OffsetEncoding) -> bool {
    forall|k: int| 0 <= k < ranges.len() ==> range_defined(#[trigger] ranges[k], lines, enc)
}

/// Whether every range of every symbol converts to Kakoune's.
pub open spec fn symbols_convertible(symbols: Seq<SemanticSymbol>, lines: Seq<Seq<char>>, enc: OffsetEncoding) -> bool {
    forall|k: int| 0 <= k < symbols.len() ==> ranges_convertible((#[trigger] symbols[k]).ls_ranges@, lines, enc)
}

/// Whether every range converts; see `ranges_convertible`.
pub(crate) fn all_ranges_convertible(ranges: &Vec<Range>, text: &Rope, enc: OffsetEncoding) -> (res: bool)
    ensures
        res == ranges_convertible(ranges@, rope_lines(*text), enc),
{
    let mut k: usize = 0;
    while k < ranges.len()
        invariant
            k <= ranges.len(),
            forall|j: int| 0 <= j < k ==> range_defined(#[trigger] ranges@[j], rope_lines(*text), enc),
        decreases ranges.len() - k,
    {
        if !lsp_range_convertible(&ranges[k], text, enc) {
            return false;
        }
        k = k + 1;
    }
    true
}

/// Whether every range of every symbol converts; see `symbols_convertible`.
pub fn semantic_symbols_convertible(symbols: &Vec<SemanticSymbol>, text: &Rope, enc: OffsetEncoding) -> (res: bool)
    ensures
        res == symbols_convertible(symbols@, rope_lines(*text), enc),
{
    let mut k: usize = 0;
    while k < symbols.len()
        invariant
            k <= symbols.len(),
            forall|j: int| 0 <= j < k ==> ranges_convertible((#[trigger] symbols@[j]).ls_ranges@, rope_lines(*text), enc),
        decreases symbols.len() - k,
    {
        if !all_ranges_convertible(&symbols[k].ls_ranges, text, enc) {
            return false;
        }
        k = k + 1;
    }
    true
}

pub(crate) proof fn lemma_join_spaced_push(parts: Seq<Seq<char>>, x: Seq<char>)
    ensures
        join_spaced(parts.push(x)) == if parts.len() == 0 { x } else { join_spaced(parts) + seq![' '] + x },
{
    assert(parts.push(x).drop_last() =~= parts);
}

/// Appends the elements of `ranges` in `face` to the list `out` of the
/// elements `done`.
pub(crate) fn push_face_specs(
    out: &mut String,
    Ghost(done): Ghost<Seq<Seq<char>>>,
    any: bool,
    face: &str,
    ranges: &Vec<Range>,
    text: &Rope,
    enc: OffsetEncoding,
)
    requires
        old(out)@ == join_spaced(done),
        any == (done.len() > 0),
        ranges_convertible(ranges@, rope_lines(*text), enc),
    ensures
        final(out)@ == join_spaced(done + face_specs(face@, ranges@, rope_lines(*text), enc)),
{
    let ghost lines = rope_lines(*text);
    let mut k: usize = 0;
    while k < ranges.len()
        invariant
            k <= ranges.len(),
            any == (done.len() > 0),
            lines == rope_lines(*text),
            ranges_convertible(ranges@, lines, enc),
            out@ == join_spaced(done + face_specs(face@, ranges@.take(k as int), lines, enc)),
        decreases ranges.len() - k,
    {
        let ghost before = done + face_specs(face@, ranges@.take(k as int), lines, enc);
        let r = lsp_range_to_kakoune(&ranges[k], text, enc);
        proof {
            assert(range_defined(ranges@[k as int], lines, enc));
            let x = kakoune_range_text(r) + seq!['|'] + face@;
            assert(ranges@.take(k + 1) =~= ranges@.take(k as int).push(ranges@[k as int]));
            assert(done + face_specs(face@, ranges@.take(k + 1), lines, enc) =~= before.push(x));
            lemma_join_spaced_push(before, x);
        }
        if any || k > 0 {
            push_char(out, ' ');
        }
        r.push_to(out);
        push_char(out, '|');
        push_str(out, face);
        k = k + 1;
    }
    assert(ranges@.take(k as int) =~= ranges@);
}

/// The command that highlights ccls's symbols; see `highlighting_command`.
pub fn semantic_highlighting_command(buffile: &str, version: i32, symbols: &Vec<SemanticSymbol>, text: &Rope, enc: OffsetEncoding) -> (res: String)
    requires
        symbols_convertible(symbols@, rope_lines(*text), enc),
    ensures
        res@ == highlighting_command(buffile@, version, symbols_specs(symbols@, rope_lines(*text), enc)),
{
    let ghost lines = rope_lines(*text);
    let mut specs = String::new();
    let mut any = false;
    let mut k: usize = 0;
    while k < symbols.len()
        invariant
            k <= symbols.len(),
            any == (symbols_specs(symbols@.take(k as int), lines, enc).len() > 0),
            lines == rope_lines(*text),
            symbols_convertible(symbols@, lines, enc),
            specs@ == join_spaced(symbols_specs(symbols@.take(k as int), lines, enc)),
        decreases symbols.len() - k,
    {
        let s = &symbols[k];
        proof {
            assert(symbols@.take(k + 1).drop_last() =~= symbols@.take(k as int));
            assert(ranges_convertible(symbols@[k as int].ls_ranges@, lines, enc));
        }
        match face_for(s.kind, s.parent_kind, s.storage == StorageClass::Static) {
            Some(f) => {
                push_face_specs(&mut specs, Ghost(symbols_specs(symbols@.take(k as int), lines, enc)), any, f, &s.ls_ranges, text, enc);
                any = any || s.ls_ranges.len() > 0;
            },
            None => {
                assert(symbols_specs(symbols@.take(k + 1), lines, enc) =~= symbols_specs(symbols@.take(k as int), lines, enc));
            },
        }
        k = k + 1;
    }
    assert(symbols@.take(k as int) =~= symbols@);
    let mut out = String::new();
    push_str(&mut out, "evaluate-commands -buffer ");
    let q = editor_quote(buffile);
    push_str(&mut out, q.as_str());
    push_str(&mut out, " -verbatim -- set-option buffer cquery_semhl ");
    push_int(&mut out, version);
    push_char(&mut out, ' ');
    push_str(&mut out, specs.as_str());
    out
}

} // verus!

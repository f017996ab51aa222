//! cquery's semantic highlighting: as ccls's, with cquery's numbering of
//! storage classes.

use vstd::prelude::*;
use ropey::Rope;
use crate::diagnostics::push_int;
use crate::language_features::ccls::{
    all_ranges_convertible, face_for, face_specs, highlighting_command, kind_face, push_face_specs, ranges_convertible,
    SemanticSymbolKind,
};
use crate::rope::rope_lines;
use crate::strings::{push_char, push_str};
use crate::types::{OffsetEncoding, Range};
use crate::util::editor_quote;

verus! {

/// How a symbol is stored, as cquery numbers it (`Invalid` for a number it
/// does not use).
#[derive(Clone, Copy, Debug, PartialEq, Eq, Structural)]
pub enum StorageClass {
    Invalid,
    No,
    Extern,
    Static,
    PrivateExtern,
    Auto,
    Register,
}

/// The number of a storage class.
pub open spec fn storage_code(s: StorageClass) -> u8 {
    match s {
        StorageClass::Invalid => 0,
        StorageClass::No => 1,
        StorageClass::Extern => 2,
        StorageClass::Static => 3,
        StorageClass::PrivateExtern => 4,
        StorageClass::Auto => 5,
        StorageClass::Register => 6,
    }
}

impl StorageClass {
    /// The storage class with a number; `Invalid` for a number no class has.
    pub fn from_code(n: u8) -> (res: StorageClass)
        ensures
            storage_code(res) == n || (res == StorageClass::Invalid && forall|s: StorageClass| storage_code(s) != n),
    {
        match n {
            1 => StorageClass::No,
            2 => StorageClass::Extern,
            3 => StorageClass::Static,
            4 => StorageClass::PrivateExtern,
            5 => StorageClass::Auto,
            6 => StorageClass::Register,
            _ => {
                proof {
                    assert forall|s: StorageClass| n != 0 implies storage_code(s) != n by {
                        match s {
                            StorageClass::Invalid => {},
                            _ => {},
                        }
                    }
                }
                StorageClass::Invalid
            },
        }
    }

    /// The class's number.
    pub fn code(&self) -> (res: u8)
        ensures
            res == storage_code(*self),
    {
        match self {
            StorageClass::Invalid => 0,
            StorageClass::No => 1,
            StorageClass::Extern => 2,
            StorageClass::Static => 3,
            StorageClass::PrivateExtern => 4,
            StorageClass::Auto => 5,
            StorageClass::Register => 6,
        }
    }
}

/// A symbol that cquery reports for highlighting.
#[derive(Clone, Debug)]
pub struct SemanticSymbol {
    pub parent_kind: SemanticSymbolKind,
    pub kind: SemanticSymbolKind,
    pub is_type_member: Option<bool>,
    pub storage: StorageClass,
    pub ranges: Vec<Range>,
}

/// The face of a cquery symbol, or nothing.
pub open spec fn symbol_face(s: SemanticSymbol) -> Option<Seq<char>> {
    kind_face(s.kind, s.parent_kind, s.storage == StorageClass::Static)
}

impl SemanticSymbol {
    /// The face of the symbol; empty for a kind that is not highlighted.
    pub fn get_face(&self) -> (res: String)
        ensures
            res@ == match symbol_face(*self) {
                Some(f) => f,
                None => Seq::empty(),
            },
    {
        match face_for(self.kind, self.parent_kind, self.storage == StorageClass::Static) {
            Some(f) => f.to_string(),
            None => String::new(),
        }
    }
}

/// The elements of the symbols' ranges, a symbol without a face left out.
pub open spec fn symbols_specs(symbols: Seq<SemanticSymbol>, lines: Seq<Seq<char>>, enc: OffsetEncoding) -> Seq<Seq<char>>
    decreases symbols.len(),
{
    if symbols.len() == 0 {
        Seq::empty()
    } else {
        let s = symbols.last();
        symbols_specs(symbols.drop_last(), lines, enc) + match symbol_face(s) {
            Some(f) => face_specs(f, s.ranges@, lines, enc),
            None => Seq::empty(),
        }
    }
}

/// Whether every range of every symbol converts to Kakoune's.
pub open spec fn symbols_convertible(symbols: Seq<SemanticSymbol>, lines: Seq<Seq<char>>, enc: OffsetEncoding) -> bool {
    forall|k: int| 0 <= k < symbols.len() ==> ranges_convertible((#[trigger] symbols[k]).ranges@, lines, enc)
}

/// Whether every range of every symbol converts; see `symbols_convertible`.
pub fn semantic_symbols_convertible(symbols: &Vec<SemanticSymbol>, text: &Rope, enc: OffsetEncoding) -> (res: bool)
    ensures
        res == symbols_convertible(symbols@, rope_lines(*text), enc),
{
    let mut k: usize = 0;
    while k < symbols.len()
        invariant
            k <= symbols.len(),
            forall|j: int| 0 <= j < k ==> ranges_convertible((#[trigger] symbols@[j]).ranges@, rope_lines(*text), enc),
        decreases symbols.len() - k,
    {
        if !all_ranges_convertible(&symbols[k].ranges, text, enc) {
            return false;
        }
        k = k + 1;
    }
    true
}

/// The command that highlights cquery's symbols; see `highlighting_command`.
pub fn semantic_highlighting_command(buffile: &str, version: i32, symbols: &Vec<SemanticSymbol>, text: &Rope, enc: OffsetEncoding) -> (res: String)
    requires
        symbols_convertible(symbols@, rope_lines(*text), enc),
    ensures
        res@ == highlighting_command(buffile@, version, symbols_specs(symbols@, rope_lines(*text), enc)),
{
    let ghost lines = rope_lines(*text);
    let mut specs = String::new();
    let mut any = false;
    let mut k: usize = 0;
    while k < symbols.len()
        invariant
            k <= symbols.len(),
            any == (symbols_specs(symbols@.take(k as int), lines, enc).len() > 0),
            lines == rope_lines(*text),
            symbols_convertible(symbols@, lines, enc),
            specs@ == crate::text_edit::join_spaced(symbols_specs(symbols@.take(k as int), lines, enc)),
        decreases symbols.len() - k,
    {
        let s = &symbols[k];
        proof {
            assert(symbols@.take(k + 1).drop_last() =~= symbols@.take(k as int));
            assert(ranges_convertible(symbols@[k as int].ranges@, lines, enc));
        }
        match face_for(s.kind, s.parent_kind, s.storage == StorageClass::Static) {
            Some(f) => {
                push_face_specs(&mut specs, Ghost(symbols_specs(symbols@.take(k as int), lines, enc)), any, f, &s.ranges, text, enc);
                any = any || s.ranges.len() > 0;
            },
            None => {
                assert(symbols_specs(symbols@.take(k + 1), lines, enc) =~= symbols_specs(symbols@.take(k as int), lines, enc));
            },
        }
        k = k + 1;
    }
    assert(symbols@.take(k as int) =~= symbols@);
    let mut out = String::new();
    push_str(&mut out, "evaluate-commands -buffer ");
    let q = editor_quote(buffile);
    push_str(&mut out, q.as_str());
    push_str(&mut out, " -verbatim -- set-option buffer cquery_semhl ");
    push_int(&mut out, version);
    push_char(&mut out, ' ');
    push_str(&mut out, specs.as_str());
    out
}

} // verus!

//! Messages of particular language servers and editor features.

pub mod call_hierarchy;
pub mod ccls;
pub mod clangd;
pub mod code_action;
pub mod completion;
pub mod copilot;
pub mod cquery;
pub mod document_links;
pub mod document_symbol;
pub mod formatting;
pub mod goto;
pub mod highlight;
pub mod inlay_hints;
pub mod lean;
pub mod metals;
pub mod object;
pub mod omnisharp;
pub mod semantic_highlighting;
pub mod rust_analyzer;
pub mod selection_range;
pub mod semantic_tokens;
pub mod signature_help;

use vstd::prelude::*;

pub mod ast;
pub mod bundle_reference;
pub mod common;
pub mod export_laws;
pub mod generate;
pub mod import_laws;
pub mod module;
pub mod name_order;
pub mod string_map;
pub mod uniq_name;

verus! {

/// Synthesizer of ECMAScript-module import and export statements for one output chunk.
pub struct EsmGenerate {}

} // verus!

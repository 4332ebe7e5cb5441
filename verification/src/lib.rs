//! The .bit language core: parsing documents, indexing them, and the text
//! utilities and data types they rest on.
use vstd::prelude::*;

pub mod bit_errors;
pub mod bit_types;
pub mod context;
pub mod convert;
pub mod edge_roundtrip;
pub mod blocks;
pub mod canon;
pub mod eval;
pub mod format;
pub mod gate;
pub mod index;
pub mod interpret;
pub mod ir;
pub mod lex;
pub mod line;
pub mod parse;
pub mod query;
pub mod query_check;
pub mod schema_check;
pub mod render;
pub mod roundtrip;
pub mod spans;
pub mod text;
pub mod types;

use crate::index::DocIndex;
use crate::ir::BitIR;
use crate::types::{Document, ParseError};

verus! {

/// Parses .bit source text into a document: the nodes of the block of all
/// its lines, from indentation zero; a `sync:` declaration without a name
/// is an error.
pub fn parse_source(source: &str) -> (r: Result<Document, ParseError>)
    ensures
        parse::parsed(source@, r),
{
    parse::parse(source)
}

/// Compiles .bit source text into its document graph: the source is
/// parsed and the document lowered and checked.
pub fn compile(source: &str) -> (r: Result<BitIR, ParseError>)
    ensures
        match r {
            Ok(ir) => exists|d: Document| parse::parsed(source@, Ok(d)) && ir@ == ir::document_ir(d),
            Err(e) => parse::parsed(source@, Err(e)),
        },
{
    match parse::parse(source) {
        Ok(doc) => {
            let ir = BitIR::from_document(&doc);
            assert(parse::parsed(source@, Ok(doc)) && ir@ == ir::document_ir(doc));
            Ok(ir)
        },
        Err(e) => Err(e),
    }
}

/// Formats .bit source text into its canonical form: the source is parsed
/// and the document formatted.
pub fn fmt(source: &str) -> (r: Result<String, ParseError>)
    ensures
        match r {
            Ok(s) => exists|d: Document| parse::parsed(source@, Ok(d)) && s@ == format::format_spec(d),
            Err(e) => parse::parsed(source@, Err(e)),
        },
{
    match parse::parse(source) {
        Ok(doc) => {
            let s = format::format(&doc);
            assert(parse::parsed(source@, Ok(doc)) && s@ == format::format_spec(doc));
            Ok(s)
        },
        Err(e) => Err(e),
    }
}

/// Converts Markdown text into a document.
pub fn from_markdown(md: &str) -> (r: Result<Document, convert::ConvertError>)
    ensures
        convert::md_scan(text::lines(md@), 0) is Some,
        r matches Ok(d) && convert::md_nodes(d.nodes@, convert::md_scan(text::lines(md@), 0)->0),
{
    convert::from_markdown(md)
}

/// Renders a document back to .bit text.
pub fn render_doc(doc: &Document) -> (r: String)
    ensures
        r@ == render::render_spec(*doc),
{
    render::render(doc)
}

/// The index of a document.
pub fn build_index(doc: &Document) -> (r: DocIndex)
    ensures
        r@ == index::index_spec(*doc),
{
    DocIndex::build(doc)
}

} // verus!

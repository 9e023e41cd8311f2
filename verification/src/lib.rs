//! Converter for two legacy localization source dialects — an XML-entity
//! string table and a line-oriented `key=value` table — into the Fluent
//! localization syntax.  Each dialect has a verified grammar that turns raw
//! text into a shared node sequence, and a verified re-serialization engine
//! that emits the Fluent text, re-attaching documentation comments to the
//! declarations they annotate.

pub mod dtd;
pub mod error;
pub mod fluent;
pub mod lexer;
pub mod nodes;
pub mod normalize;
pub mod properties;
pub mod text;

use vstd::prelude::*;

verus! {

/// Which source dialect a file is written in; selected by the caller, for
/// instance from the file extension.
#[derive(Debug, PartialEq, Eq, Clone, Copy, Structural)]
pub enum Dialect {
    EntityTable,
    LineTable,
}

/// The parse of `input` under the given dialect.
pub open spec fn parse_of(dialect: Dialect, input: Seq<char>) -> Result<
    Seq<nodes::GNode>,
    error::GParseError,
> {
    match dialect {
        Dialect::EntityTable => dtd::dtd_doc(input),
        Dialect::LineTable => properties::properties_doc(input),
    }
}

/// Convert one source file to the Fluent syntax: parse it under the given
/// dialect and re-serialize the nodes.  Fails exactly where the grammar
/// fails.
pub fn convert(dialect: Dialect, input: &str) -> (r: Result<String, error::ParseError>)
    ensures
        match r {
            Ok(out) => parse_of(dialect, input@) is Ok && out@ == fluent::fluent_output(
                parse_of(dialect, input@)->Ok_0,
            ),
            Err(e) => parse_of(dialect, input@) == Err::<Seq<nodes::GNode>, _>(e@),
        },
{
    let parsed = match dialect {
        Dialect::EntityTable => dtd::dtd(input),
        Dialect::LineTable => properties::properties(input),
    };
    match parsed {
        Ok(ns) => Ok(fluent::dtd_to_fluent(&ns)),
        Err(e) => Err(e),
    }
}

} // verus!

//! What the source parser makes of a file.
//!
//! The library does not parse. The parser is asked from outside, as the file
//! system is, and what it made of a file is recorded with the library: a
//! syntax tree and, in source order, the specifiers that the file holds.

use swc_common::comments::SingleThreadedComments;
use swc_common::sync::Lrc;
use swc_common::SourceMap;
use swc_ecma_ast::Module;
use vstd::prelude::*;

verus! {

/// `swc_ecma_ast::Module`, the syntax tree of a module. The library carries
/// it and reads, of its items, only which functions they declare.
#[verifier::external_type_specification]
#[verifier::external_body]
pub struct ExModule(Module);

/// `swc_common::SourceMap`, which the library carries and does not look
/// into.
#[verifier::external_type_specification]
#[verifier::external_body]
pub struct ExSourceMap(SourceMap);

/// `swc_common::comments::SingleThreadedComments`, which the library carries
/// and does not look into.
#[verifier::external_type_specification]
#[verifier::external_body]
pub struct ExSingleThreadedComments(SingleThreadedComments);

/// What the parser made of one source file.
pub struct Parsed {
    /// The syntax tree of the module.
    pub ast: Module,
    /// The source map that the spans of `ast` refer to.
    pub source_map: Lrc<SourceMap>,
    /// The comments of the source text.
    pub comments: SingleThreadedComments,
    /// The specifier of each import, export-from and `require` of the
    /// module, in source order and with duplicates kept.
    pub specifiers: Vec<String>,
}

/// What became of reading and parsing one file.
pub enum Source {
    /// The file could not be read.
    Unreadable,
    /// The parser rejected the text of the file, with this message.
    Rejected(String),
    /// The parser took the text of the file.
    Parsed(Parsed),
}

/// What became of reading and parsing one file, as the contracts speak of
/// it.
pub enum Reading {
    /// The file could not be read.
    Unreadable,
    /// The parser rejected the text of the file, with this message.
    Rejected(Seq<char>),
    /// The parser took the text of the file: its syntax tree, and the
    /// specifiers that it holds, in source order.
    Parsed { ast: Module, specifiers: Seq<Seq<char>> },
}

impl View for Source {
    type V = Reading;

    open spec fn view(&self) -> Reading {
        match self {
            Source::Unreadable => Reading::Unreadable,
            Source::Rejected(message) => Reading::Rejected(message@),
            Source::Parsed(parsed) => Reading::Parsed {
                ast: parsed.ast,
                specifiers: parsed.specifiers.deep_view(),
            },
        }
    }
}

impl DeepView for Source {
    type V = Reading;

    open spec fn deep_view(&self) -> Reading {
        self@
    }
}

/// What the answer of the parser makes of a file: `stopped` where an error
/// stopped the parser, the first of `recorded` where it recorded errors and
/// went on, and else the tree that it built.
pub open spec fn judged(outcome: Result<Reading, Seq<char>>, recorded: Seq<Seq<char>>) -> Reading {
    match outcome {
        Err(stopped) => Reading::Rejected(stopped),
        Ok(parsed) => if recorded.len() > 0 {
            Reading::Rejected(recorded[0])
        } else {
            parsed
        },
    }
}

/// What the answer of the parser makes of a file. `outcome` is the tree that
/// the parser built, or the message of the error that stopped it, and
/// `recorded` holds the messages of the errors that it recorded and went on
/// from, in order. A file with any error is rejected.
pub fn judge(outcome: Result<Parsed, String>, recorded: Vec<String>) -> (r: Source)
    ensures
        r@ == judged(
            match outcome {
                Ok(parsed) => Ok(
                    Reading::Parsed { ast: parsed.ast, specifiers: parsed.specifiers.deep_view() },
                ),
                Err(stopped) => Err(stopped@),
            },
            recorded.deep_view(),
        ),
{
    let mut recorded = recorded;
    match outcome {
        Err(stopped) => Source::Rejected(stopped),
        Ok(parsed) => {
            if recorded.len() > 0 {
                Source::Rejected(recorded.remove(0))
            } else {
                Source::Parsed(parsed)
            }
        },
    }
}

} // verus!

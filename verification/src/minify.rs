//! The step from a printed document to the text that is reported: every
//! insignificant character is taken out. The `graphql_parser` crate does it;
//! the contract names its result.

use vstd::prelude::*;

verus! {

/// The text that `source` reads once its tokens are written with no more
/// than one space between any two of them, or the description of the
/// failure where `source` cannot be read as a sequence of tokens.
pub uninterp spec fn minified(source: Seq<char>) -> Result<Seq<char>, Seq<char>>;

/// `minify_query` of the `graphql_parser` crate: the tokens of the text,
/// joined with a space only where two tokens would else run together. The
/// result is a function of the text alone.
#[verifier::external_body]
pub(crate) fn minify(source: String) -> (r: Result<String, String>)
    ensures
        match r {
            Ok(text) => minified(source@) == Ok::<Seq<char>, Seq<char>>(text@),
            Err(e) => minified(source@) == Err::<Seq<char>, Seq<char>>(e@),
        },
{
    graphql_parser::minify_query(source).map_err(|e| e.to_string())
}

} // verus!

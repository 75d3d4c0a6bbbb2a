use vstd::prelude::*;
use vstd::string::StringExecFns;

verus! {

/// The comment that heads every manifest written by this library.
pub const MANIFEST_HEADER: &'static str =
    "# Automatically generated, DO NOT EDIT! Use `tree-sitter-grammars add` to modify.\n\n";

/// The manifest file's text: the header, then the encoded registry.
pub fn manifest_text(body: &str) -> (r: String)
    ensures
        r@ == MANIFEST_HEADER@ + body@,
{
    String::from_str(MANIFEST_HEADER).concat(body)
}

} // verus!

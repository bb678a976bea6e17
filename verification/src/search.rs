//! Looking for posts by words, and looking up one post.

use vstd::prelude::*;
use vstd::string::StringExecFns;

verus! {

/// The pattern that matches every text in which `term` occurs.
pub fn like_pattern(term: &str) -> (pattern: String)
    ensures
        pattern@ == "%"@ + term@ + "%"@,
{
    let mut pattern = String::from_str("%");
    pattern.append(term);
    pattern.append("%");
    pattern
}

/// Which post a caller may see: the published post of the given id, or,
/// for a caller who holds a preview token, the unpublished post of that id
/// and token.
#[derive(Clone, Debug, PartialEq, Eq)]
pub struct PostLookup {
    /// The id of the post.
    pub id: u32,
    /// Whether the post has to be published.
    pub published: bool,
    /// The preview token that the post has to carry, if any.
    pub preview_token: Option<String>,
}

/// Describes which post to look up for a caller who asks for the post `id`,
/// with or without a preview token.
pub fn post(id: u32, token: Option<String>) -> (lookup: PostLookup)
    ensures
        lookup.id == id,
        lookup.published == (token is None),
        lookup.preview_token == token,
{
    let published = token.is_none();
    PostLookup { id, published, preview_token: token }
}

} // verus!

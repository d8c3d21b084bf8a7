//! The search contract behind the shell's built-in Search view: the query it posts and the
//! results a provider answers.

use vstd::prelude::*;

use crate::strmap::StrMap;

verus! {

/// A query from the Search view: free text plus provider-defined `filters` and paging.
pub struct SearchQuery {
    pub q: String,
    /// Free-form filters the provider interprets.
    pub filters: StrMap<String>,
    pub limit: Option<usize>,
    pub offset: Option<usize>,
}

/// One search result; `content` is what the shell opens when the hit is selected (`None`:
/// the hit's catalog item).
pub struct SearchHit {
    pub id: String,
    pub title: String,
    pub subtitle: Option<String>,
    pub snippet: Option<String>,
    pub content: Option<serde_json::Value>,
}

/// The results of a [`SearchQuery`]: the hits, and the total match count when the provider
/// counts.
pub struct SearchResults {
    pub hits: Vec<SearchHit>,
    pub total: Option<usize>,
}

} // verus!

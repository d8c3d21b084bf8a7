//! The flat information catalog: items shown in the shell's Catalog view, each with optional
//! actions wired to MCP tools.

use vstd::prelude::*;

verus! {

/// An item shown in the catalog's sidebar list.
#[derive(Default)]
pub struct CatalogItem {
    pub id: String,
    pub title: String,
    pub subtitle: Option<String>,
    /// Actions offered on the item (empty: none shown).
    pub actions: Vec<CatalogAction>,
}

/// An action on a [`CatalogItem`], wired to an MCP tool the shell invokes over `/mcp`; the
/// item's `id` is merged into the call arguments, and `danger` asks for confirmation first.
pub struct CatalogAction {
    pub id: String,
    pub label: String,
    /// The MCP tool to call.
    pub tool: String,
    /// Extra arguments merged into the call.
    pub args: Option<serde_json::Value>,
    /// Mutating/destructive: the UI confirms before running.
    pub danger: bool,
}

} // verus!

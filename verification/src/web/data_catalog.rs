//! The typed, related catalog (the data-explorer layer): entity types with JSON Schema
//! attributes and relations, resources served JSON:API-style, and the list query a client's
//! parameters make.

use vstd::prelude::*;

use crate::strmap::StrMap;
use crate::text::{parse_usize, parsed_usize};

verus! {

#[verifier::external_type_specification]
#[verifier::external_body]
pub struct ExJsonValue(serde_json::Value);

/// Hard ceiling on a client-supplied page size, so one request cannot ask a provider for an
/// arbitrarily large allocation.
pub const MAX_LIST_LIMIT: usize = 500;

/// The page size when the client names none (or one that does not parse).
pub const DEFAULT_LIST_LIMIT: usize = 50;

/// Cardinality of a [`Relationship`].
#[derive(Clone, Copy, Debug, PartialEq, Eq, Structural)]
pub enum Cardinality {
    ToOne,
    ToMany,
}

/// A relation from one entity type to another (rendered by the shell as navigable links).
pub struct Relationship {
    pub name: String,
    pub label: String,
    /// The target [`EntityType`] name.
    pub target: String,
    pub cardinality: Cardinality,
}

impl Relationship {
    /// A relation named `name` (labelled `label`) to the `target` entity type.
    pub fn new(name: &str, label: &str, target: &str, cardinality: Cardinality) -> (res:
        Relationship)
        ensures
            res.name@ == name@,
            res.label@ == label@,
            res.target@ == target@,
            res.cardinality == cardinality,
    {
        Relationship {
            name: name.to_owned(),
            label: label.to_owned(),
            target: target.to_owned(),
            cardinality,
        }
    }
}

/// One entity type in a server's catalog schema. `attributes` is the JSON Schema for the
/// type's fields.
pub struct EntityType {
    pub name: String,
    pub title: String,
    /// Which attribute holds an instance's display title (falls back to the id when unset).
    pub title_field: Option<String>,
    /// Whether this type is a top-level browsable list.
    pub list: bool,
    pub attributes: serde_json::Value,
    pub relationships: Vec<Relationship>,
    /// Attribute names usable as facets/filters in the list view.
    pub facets: Vec<String>,
    /// Actions offered per item.
    pub item_actions: Vec<EntityAction>,
    /// Actions offered for the list as a whole.
    pub list_actions: Vec<EntityAction>,
    /// Filter toggles offered in the list's edit toolbar.
    pub list_toggles: Vec<FilterToggle>,
}

/// A typed reference to a resource: a JSON:API resource identifier plus a display title,
/// an optional grouping key, and the subset of the type's item actions that apply (`None`:
/// all of them).
#[derive(Default)]
pub struct ResourceRef {
    pub ty: String,
    pub id: String,
    pub title: Option<String>,
    pub group: Option<String>,
    pub actions: Option<Vec<String>>,
}

/// A declarative action on an entity: the shell renders a button that calls the MCP `tool`
/// with the row's id (passed as `arg`, default `id`).
#[derive(Default)]
pub struct EntityAction {
    pub id: String,
    pub label: String,
    pub icon: Option<String>,
    /// The MCP tool to call.
    pub tool: String,
    /// The argument name the row id is passed as.
    pub arg: Option<String>,
    /// Render as a destructive action (and confirm before firing).
    pub danger: bool,
    /// Optional confirmation prompt shown before the call.
    pub confirm: Option<String>,
}

/// A declarative filter toggle: clicking it flips `filter[key] = value` on the list query.
#[derive(Default)]
pub struct FilterToggle {
    pub id: String,
    pub label: String,
    pub key: String,
    pub value: String,
}

/// A full resource: attributes (matching its type's schema) + resolved relationships.
pub struct Resource {
    pub ty: String,
    pub id: String,
    pub attributes: serde_json::Value,
    /// Relationship name -> the referenced resources.
    pub relationships: StrMap<Vec<ResourceRef>>,
}

/// A page of resource refs for the list view.
pub struct CatalogPage {
    pub items: Vec<ResourceRef>,
    pub total: Option<usize>,
}

/// JSON:API list envelope: `{ "data": [...], "meta": { "total": <n|null> } }`.
pub struct JsonApiList<T> {
    pub data: Vec<T>,
    pub meta: ListMeta,
}

/// Pagination metadata for a [`JsonApiList`].
pub struct ListMeta {
    /// Total matches, or `None` when the provider does not count.
    pub total: Option<usize>,
}

/// JSON:API single-resource envelope: `{ "data": { ... } }`.
pub struct JsonApiResource {
    pub data: ResourceObject,
}

/// A JSON:API resource object: attributes + to-many relationships by name (omitted when
/// there are none).
pub struct ResourceObject {
    pub ty: String,
    pub id: String,
    pub attributes: serde_json::Value,
    pub relationships: Option<StrMap<RelData>>,
}

/// A JSON:API to-many relationship value: `{ "data": [refs] }`.
pub struct RelData {
    pub data: Vec<ResourceRef>,
}

/// A list query: facet filters + free text + pagination.
pub struct CatalogQuery {
    pub filter: StrMap<String>,
    pub q: Option<String>,
    pub limit: usize,
    pub offset: usize,
}

/// The query parameters as a map: a later occurrence of a name overrides an earlier one.
pub open spec fn params_map(pairs: Seq<(String, String)>) -> Map<Seq<char>, Seq<char>>
    decreases pairs.len(),
{
    if pairs.len() == 0 {
        Map::empty()
    } else {
        params_map(pairs.drop_last()).insert(pairs.last().0@, pairs.last().1@)
    }
}

/// The texts a string map holds.
pub open spec fn text_map(m: Map<Seq<char>, String>) -> Map<Seq<char>, Seq<char>> {
    m.map_values(|s: String| s@)
}

/// A count parameter: its parsed value, or `default` when absent or not a `usize`.
pub open spec fn count_param(m: Map<Seq<char>, Seq<char>>, name: Seq<char>, default: usize) -> usize {
    if m.contains_key(name) {
        match parsed_usize(m[name]) {
            Some(n) => n,
            None => default,
        }
    } else {
        default
    }
}

/// The free-text parameter `q`, when present and not empty.
pub open spec fn text_param(m: Map<Seq<char>, Seq<char>>) -> Option<Seq<char>> {
    if m.contains_key("q"@) && m["q"@].len() > 0 {
        Some(m["q"@])
    } else {
        None
    }
}

/// The page size a client asks for, clamped to [`MAX_LIST_LIMIT`].
pub open spec fn limit_param(m: Map<Seq<char>, Seq<char>>) -> usize {
    let asked = count_param(m, "limit"@, DEFAULT_LIST_LIMIT);
    if asked < MAX_LIST_LIMIT {
        asked
    } else {
        MAX_LIST_LIMIT
    }
}

/// Whatever a client asks for, a page never exceeds [`MAX_LIST_LIMIT`].
pub proof fn lemma_limit_clamped(m: Map<Seq<char>, Seq<char>>)
    ensures
        limit_param(m) <= MAX_LIST_LIMIT,
        !m.contains_key("limit"@) ==> limit_param(m) == DEFAULT_LIST_LIMIT,
{
}

/// The facet filters: every parameter but the reserved `q`, `limit` and `offset`.
pub open spec fn filter_params(m: Map<Seq<char>, Seq<char>>) -> Map<Seq<char>, Seq<char>> {
    m.remove("q"@).remove("limit"@).remove("offset"@)
}

/// The reserved parameters steer the query and never filter: whatever `q`, `limit` and
/// `offset` hold, none of them is a facet filter, and every other parameter filters on exactly
/// its value.
pub proof fn lemma_reserved_never_filter(m: Map<Seq<char>, Seq<char>>)
    ensures
        !filter_params(m).contains_key("q"@),
        !filter_params(m).contains_key("limit"@),
        !filter_params(m).contains_key("offset"@),
        forall|k: Seq<char>|
            k != "q"@ && k != "limit"@ && k != "offset"@ ==> (#[trigger] filter_params(m).contains_key(k)
                == m.contains_key(k)),
        forall|k: Seq<char>|
            k != "q"@ && k != "limit"@ && k != "offset"@ && m.contains_key(k) ==> #[trigger] filter_params(m)[k]
                == m[k],
{
}

/// The view of an optional string.
pub open spec fn opt_text(o: Option<String>) -> Option<Seq<char>> {
    match o {
        Some(s) => Some(s@),
        None => None,
    }
}

impl CatalogQuery {
    /// The list query for the request's query parameters, in the order given: the reserved
    /// `q` (free text, dropped when empty), `limit` (default 50, at most 500) and `offset`
    /// (default 0) steer it, every other parameter is a facet filter.
    pub fn from_params(params: Vec<(String, String)>) -> (res: CatalogQuery)
        ensures
            text_map(res.filter.as_map()) == filter_params(params_map(params@)),
            opt_text(res.q) == text_param(params_map(params@)),
            res.limit == limit_param(params_map(params@)),
            res.offset == count_param(params_map(params@), "offset"@, 0),
    {
        let mut map: StrMap<String> = StrMap::new();
        let mut i: usize = 0;
        let ghost ps = params@;
        let mut rest = params;
        proof {
            assert(text_map(map.as_map()) =~= params_map(ps.take(0)));
            assert(rest@ =~= ps.skip(0));
        }
        assert(rest.len() == ps.len());
        while rest.len() > 0
            invariant
                i + rest@.len() == ps.len(),
                ps.len() <= usize::MAX,
                rest@ == ps.skip(i as int),
                text_map(map.as_map()) == params_map(ps.take(i as int)),
            decreases rest@.len(),
        {
            let (k, v) = rest.remove(0);
            assert(rest@ =~= ps.skip(i + 1));
            assert(ps[i as int] == (k, v));
            let ghost before = map.as_map();
            map.insert(k, v);
            proof {
                assert(ps.take(i + 1).drop_last() =~= ps.take(i as int));
                assert(text_map(map.as_map()) =~= text_map(before).insert(k@, v@));
            }
            i = i + 1;
        }
        proof {
            assert(ps.take(ps.len() as int) =~= ps);
        }
        let ghost m = params_map(ps);
        proof {
            reveal_strlit("q");
            reveal_strlit("limit");
            reveal_strlit("offset");
            assert("q"@.len() == 1 && "limit"@.len() == 5 && "offset"@.len() == 6);
            assert("q"@ != "limit"@ && "q"@ != "offset"@ && "limit"@ != "offset"@);
        }
        let q = match map.remove("q") {
            Some(s) => {
                assert(s@ == m["q"@]);
                if s.as_str().is_empty() {
                    None
                } else {
                    Some(s)
                }
            },
            None => None,
        };
        let ghost m1 = map.as_map();
        assert(text_map(m1) =~= m.remove("q"@));
        let limit = match map.remove("limit") {
            Some(s) => {
                assert(s@ == text_map(m1)["limit"@]);
                match parse_usize(s.as_str()) {
                    Some(n) => n,
                    None => DEFAULT_LIST_LIMIT,
                }
            },
            None => DEFAULT_LIST_LIMIT,
        };
        assert(limit == count_param(m, "limit"@, DEFAULT_LIST_LIMIT));
        let limit = if limit < MAX_LIST_LIMIT {
            limit
        } else {
            MAX_LIST_LIMIT
        };
        let ghost m2 = map.as_map();
        assert(text_map(m2) =~= m.remove("q"@).remove("limit"@));
        let offset = match map.remove("offset") {
            Some(s) => {
                assert(s@ == text_map(m2)["offset"@]);
                match parse_usize(s.as_str()) {
                    Some(n) => n,
                    None => 0,
                }
            },
            None => 0,
        };
        assert(offset == count_param(m, "offset"@, 0));
        proof {
            assert(text_map(map.as_map()) =~= filter_params(m));
        }
        CatalogQuery { filter: map, q, limit, offset }
    }
}

impl JsonApiList<ResourceRef> {
    /// The JSON:API list envelope of a page: its items as `data`, its total as `meta`.
    pub fn from_page(page: CatalogPage) -> (res: JsonApiList<ResourceRef>)
        ensures
            res.data == page.items,
            res.meta.total == page.total,
    {
        JsonApiList { data: page.items, meta: ListMeta { total: page.total } }
    }
}

impl JsonApiResource {
    /// The JSON:API envelope of a resource: each relationship's refs wrapped as
    /// `{ "data": [refs] }` under the same name, and no relationships member when there are
    /// none.
    pub fn from_resource(resource: Resource) -> (res: JsonApiResource)
        ensures
            res.data.ty == resource.ty,
            res.data.id == resource.id,
            res.data.attributes == resource.attributes,
            match res.data.relationships {
                None => resource.relationships.as_map() == Map::<Seq<char>, Vec<ResourceRef>>::empty(),
                Some(rels) => {
                    &&& resource.relationships.as_map() != Map::<Seq<char>, Vec<ResourceRef>>::empty()
                    &&& rels.as_map().dom() == resource.relationships.as_map().dom()
                    &&& forall|k: Seq<char>| #[trigger] rels.as_map().contains_key(k)
                        ==> rels.as_map()[k].data == resource.relationships.as_map()[k]
                },
            },
    {
        let Resource { ty, id, attributes, relationships } = resource;
        let relationships = if relationships.is_empty() {
            None
        } else {
            let ghost src = relationships.as_map();
            let entries = relationships.into_entries();
            let mut out: StrMap<RelData> = StrMap::new();
            let ghost es = entries@;
            let mut rest = entries;
            let mut i: usize = 0;
            proof {
                assert(rest@ =~= es.skip(0));
            }
            assert(rest.len() == es.len());
            while rest.len() > 0
                invariant
                    i + rest@.len() == es.len(),
                    es.len() <= usize::MAX,
                    rest@ == es.skip(i as int),
                    forall|k: Seq<char>| #[trigger] src.contains_key(k) <==> crate::strmap::entry_keys(es).contains(k),
                    forall|j: int| 0 <= j < es.len() ==> src[(#[trigger] es[j]).0@] == es[j].1,
                    forall|k: Seq<char>| #[trigger] out.as_map().contains_key(k) <==> crate::strmap::entry_keys(es.take(i as int)).contains(k),
                    forall|k: Seq<char>| #[trigger] out.as_map().contains_key(k) ==> out.as_map()[k].data == src[k],
                decreases rest@.len(),
            {
                let (k, refs) = rest.remove(0);
                assert(rest@ =~= es.skip(i + 1));
                assert(es[i as int] == (k, refs));
                let ghost kv = k@;
                out.insert(k, RelData { data: refs });
                proof {
                    let before = crate::strmap::entry_keys(es.take(i as int));
                    let after = crate::strmap::entry_keys(es.take(i + 1));
                    assert(after =~= before.push(kv));
                    assert forall|q: Seq<char>| #[trigger] out.as_map().contains_key(q) <==> after.contains(q) by {
                        if after.contains(q) && q != kv {
                            let j = choose|j: int| 0 <= j < after.len() && after[j] == q;
                            assert(before[j] == q);
                        }
                        if before.contains(q) {
                            let j = choose|j: int| 0 <= j < before.len() && before[j] == q;
                            assert(after[j] == q);
                        }
                        if q == kv {
                            assert(after[i as int] == q);
                        }
                    }
                }
                i = i + 1;
            }
            proof {
                assert(es.take(es.len() as int) =~= es);
                assert(out.as_map().dom() =~= src.dom());
            }
            Some(out)
        };
        JsonApiResource { data: ResourceObject { ty, id, attributes, relationships } }
    }
}

} // verus!

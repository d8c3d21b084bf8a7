use mcp_core::strmap::StrMap;
use mcp_core::web::data_catalog::{
    CatalogPage, CatalogQuery, Cardinality, JsonApiList, JsonApiResource, Relationship, Resource,
    ResourceRef, MAX_LIST_LIMIT,
};

fn params(pairs: &[(&str, &str)]) -> Vec<(String, String)> {
    pairs
        .iter()
        .map(|(k, v)| (k.to_string(), v.to_string()))
        .collect()
}

#[test]
fn list_limit_is_clamped() {
    let q = CatalogQuery::from_params(params(&[("limit", "1000000")]));
    assert_eq!(q.limit, MAX_LIST_LIMIT);
}

#[test]
fn list_query_defaults_and_reserved_params() {
    let q = CatalogQuery::from_params(params(&[]));
    assert_eq!(q.limit, 50);
    assert_eq!(q.offset, 0);
    assert!(q.q.is_none());
    assert!(q.filter.is_empty());

    let q = CatalogQuery::from_params(params(&[
        ("year", "2020"),
        ("q", ""),
        ("limit", "+7"),
        ("offset", "-1"),
        ("kind", "a"),
        ("kind", "b"),
    ]));
    assert!(q.q.is_none());
    assert_eq!(q.limit, 7);
    assert_eq!(q.offset, 0);
    let entries = q.filter.into_entries();
    assert_eq!(
        entries,
        vec![
            ("kind".to_string(), "b".to_string()),
            ("year".to_string(), "2020".to_string())
        ]
    );

    let q = CatalogQuery::from_params(params(&[("q", "law"), ("limit", "abc"), ("offset", "30")]));
    assert_eq!(q.q.as_deref(), Some("law"));
    assert_eq!(q.limit, 50);
    assert_eq!(q.offset, 30);
}

#[test]
fn data_catalog_lists_items() {
    let page = CatalogPage {
        items: vec![ResourceRef {
            ty: "doc".to_string(),
            id: "a/b".to_string(),
            title: Some("A/B".to_string()),
            ..Default::default()
        }],
        total: Some(1),
    };
    let list = JsonApiList::from_page(page);
    assert_eq!(list.meta.total, Some(1));
    assert_eq!(list.data[0].id, "a/b");
}

#[test]
fn gets_resource_with_slash_id_and_relationships() {
    let mut relationships = StrMap::new();
    relationships.insert(
        "refs".to_string(),
        vec![ResourceRef {
            ty: "doc".to_string(),
            id: "c/d".to_string(),
            title: Some("C/D".to_string()),
            ..Default::default()
        }],
    );
    let resource = Resource {
        ty: "doc".to_string(),
        id: "a/b".to_string(),
        attributes: serde_json::Value::String("A/B".to_string()),
        relationships,
    };
    let doc = JsonApiResource::from_resource(resource);
    assert_eq!(doc.data.id, "a/b");
    let rels = doc.data.relationships.expect("relationships present");
    assert_eq!(rels.get("refs").unwrap().data[0].id, "c/d");
}

#[test]
fn empty_relationships_are_omitted() {
    let resource = Resource {
        ty: "doc".to_string(),
        id: "x".to_string(),
        attributes: serde_json::Value::Null,
        relationships: StrMap::new(),
    };
    assert!(JsonApiResource::from_resource(resource)
        .data
        .relationships
        .is_none());
}

#[test]
fn relationship_new_fills_every_field() {
    let r = Relationship::new("refs", "References", "doc", Cardinality::ToMany);
    assert_eq!(r.name, "refs");
    assert_eq!(r.label, "References");
    assert_eq!(r.target, "doc");
    assert_eq!(r.cardinality, Cardinality::ToMany);
}

use openapi_joiner::document::{
    Category, ComponentEntry, Document, Info, Operation, PathEntry, PathItem, Property,
    Reference, Schema,
};
use openapi_joiner::joiner::{JoinError, OpenAPIJoiner};
use openapi_joiner::rewrite::rewrite_document;

fn component_ref(category: Category, name: &str) -> Schema {
    Schema::Ref(Reference::Component { category, name: name.to_string() })
}

fn simple_doc(title: &str, path: &str, schema_name: &str, definition: Schema) -> Document {
    Document {
        info: Some(Info { title: title.to_string(), version: "1.0".to_string() }),
        security: None,
        paths: vec![PathEntry {
            template: path.to_string(),
            item: PathItem {
                operations: vec![Operation {
                    method: "get".to_string(),
                    content: component_ref(Category::Schemas, schema_name),
                }],
            },
        }],
        components: vec![ComponentEntry {
            category: Category::Schemas,
            name: schema_name.to_string(),
            definition,
        }],
    }
}

fn reference_eq(a: &Reference, b: &Reference) -> bool {
    match (a, b) {
        (
            Reference::Component { category: c1, name: n1 },
            Reference::Component { category: c2, name: n2 },
        ) => c1 == c2 && n1 == n2,
        (Reference::External(s1), Reference::External(s2)) => s1 == s2,
        _ => false,
    }
}

fn schema_eq(a: &Schema, b: &Schema) -> bool {
    match (a, b) {
        (Schema::Ref(r1), Schema::Ref(r2)) => reference_eq(r1, r2),
        (Schema::AllOf(v1), Schema::AllOf(v2))
        | (Schema::OneOf(v1), Schema::OneOf(v2))
        | (Schema::AnyOf(v1), Schema::AnyOf(v2)) => {
            v1.len() == v2.len() && v1.iter().zip(v2.iter()).all(|(x, y)| schema_eq(x, y))
        }
        (Schema::Array(b1), Schema::Array(b2)) => schema_eq(b1, b2),
        (
            Schema::Object { properties: p1, additional: a1 },
            Schema::Object { properties: p2, additional: a2 },
        ) => {
            p1.len() == p2.len()
                && p1
                    .iter()
                    .zip(p2.iter())
                    .all(|(x, y)| x.name == y.name && schema_eq(&x.schema, &y.schema))
                && match (a1, a2) {
                    (Some(x), Some(y)) => schema_eq(x, y),
                    (None, None) => true,
                    _ => false,
                }
        }
        (Schema::Primitive, Schema::Primitive) => true,
        _ => false,
    }
}

fn document_eq(a: &Document, b: &Document) -> bool {
    let info_eq = match (&a.info, &b.info) {
        (Some(x), Some(y)) => x.title == y.title && x.version == y.version,
        (None, None) => true,
        _ => false,
    };
    info_eq
        && a.security == b.security
        && a.paths.len() == b.paths.len()
        && a.paths.iter().zip(b.paths.iter()).all(|(x, y)| {
            x.template == y.template
                && x.item.operations.len() == y.item.operations.len()
                && x.item
                    .operations
                    .iter()
                    .zip(y.item.operations.iter())
                    .all(|(o1, o2)| o1.method == o2.method && schema_eq(&o1.content, &o2.content))
        })
        && a.components.len() == b.components.len()
        && a.components.iter().zip(b.components.iter()).all(|(x, y)| {
            x.category == y.category && x.name == y.name && schema_eq(&x.definition, &y.definition)
        })
}

fn has_component_entry(doc: &Document, category: Category, name: &str) -> bool {
    doc.components.iter().any(|c| c.category == category && c.name == name)
}

fn collect_refs(s: &Schema, out: &mut Vec<(Category, String)>) {
    match s {
        Schema::Ref(Reference::Component { category, name }) => {
            out.push((*category, name.clone()))
        }
        Schema::Ref(Reference::External(_)) => {}
        Schema::AllOf(v) | Schema::OneOf(v) | Schema::AnyOf(v) => {
            for c in v {
                collect_refs(c, out);
            }
        }
        Schema::Array(b) => collect_refs(b, out),
        Schema::Object { properties, additional } => {
            for p in properties {
                collect_refs(&p.schema, out);
            }
            if let Some(b) = additional {
                collect_refs(b, out);
            }
        }
        Schema::Primitive => {}
    }
}

#[test]
fn new_joiner_is_empty() {
    let joiner = OpenAPIJoiner::new();
    assert!(joiner.merged.info.is_none());
    assert!(joiner.merged.security.is_none());
    assert!(joiner.merged.paths.is_empty());
    assert!(joiner.merged.components.is_empty());
    assert!(joiner.prefixes.is_empty());
}

#[test]
fn path_construction() {
    let widget = Schema::Object {
        properties: vec![Property { name: "id".to_string(), schema: Schema::Primitive }],
        additional: None,
    };
    let doc = simple_doc("Widgets", "/widgets/{id}", "Widget", widget);
    let mut joiner = OpenAPIJoiner::new();
    assert_eq!(joiner.add(doc, "/catalog", "cat"), Ok(()));
    assert_eq!(joiner.merged.paths.len(), 1);
    assert_eq!(joiner.merged.paths[0].template, "/catalog/widgets/{id}");
    match &joiner.merged.paths[0].item.operations[0].content {
        Schema::Ref(Reference::Component { category, name }) => {
            assert_eq!(*category, Category::Schemas);
            assert_eq!(name, "cat_Widget");
        }
        other => panic!("expected a component reference, got {:?}", other),
    }
    assert_eq!(joiner.merged.components.len(), 1);
    assert_eq!(joiner.merged.components[0].name, "cat_Widget");
}

#[test]
fn rewriting_is_pure_and_deterministic() {
    let doc = simple_doc(
        "Widgets",
        "/widgets",
        "Widget",
        Schema::AllOf(vec![
            component_ref(Category::Schemas, "Base"),
            Schema::Array(Box::new(Schema::Primitive)),
        ]),
    );
    let once = rewrite_document(&doc, "cat");
    let again = rewrite_document(&doc, "cat");
    assert!(document_eq(&once, &again));
    // the input document is untouched
    assert_eq!(doc.components[0].name, "Widget");
    assert_eq!(once.components[0].name, "cat_Widget");
}

#[test]
fn component_merge_is_order_independent_except_metadata() {
    let doc_a = || simple_doc("A", "/a", "Alpha", Schema::Primitive);
    let doc_b = || simple_doc("B", "/b", "Beta", Schema::Primitive);

    let mut ab = OpenAPIJoiner::new();
    assert_eq!(ab.add(doc_a(), "/x", "p1"), Ok(()));
    assert_eq!(ab.add(doc_b(), "/y", "p2"), Ok(()));

    let mut ba = OpenAPIJoiner::new();
    assert_eq!(ba.add(doc_b(), "/y", "p2"), Ok(()));
    assert_eq!(ba.add(doc_a(), "/x", "p1"), Ok(()));

    // same components, as a set of key-value pairs
    assert_eq!(ab.merged.components.len(), 2);
    assert_eq!(ba.merged.components.len(), 2);
    for side in [&ab, &ba] {
        assert!(has_component_entry(&side.merged, Category::Schemas, "p1_Alpha"));
        assert!(has_component_entry(&side.merged, Category::Schemas, "p2_Beta"));
    }
    // but info follows the first document merged
    assert_eq!(ab.merged.info.as_ref().unwrap().title, "A");
    assert_eq!(ba.merged.info.as_ref().unwrap().title, "B");
}

#[test]
fn end_to_end_unsupported_reference() {
    let users = simple_doc("Users", "/", "User", Schema::Primitive);
    let orders = simple_doc(
        "Orders",
        "/",
        "Order",
        Schema::Object {
            properties: vec![Property {
                name: "user".to_string(),
                schema: Schema::Ref(Reference::External(
                    "users.yaml#/components/schemas/User".to_string(),
                )),
            }],
            additional: None,
        },
    );
    let mut joiner = OpenAPIJoiner::new();
    assert_eq!(joiner.add(users, "/users", "users"), Ok(()));
    assert_eq!(joiner.add(orders, "/orders", "orders"), Err(JoinError::UnsupportedReference));
    // the failed merge left the merged document as it was
    assert_eq!(joiner.merged.paths.len(), 1);
    assert_eq!(joiner.merged.components.len(), 1);
    assert_eq!(joiner.merged.components[0].name, "users_User");
}

#[test]
fn end_to_end_clean_merge() {
    let users = simple_doc("Users", "/", "User", Schema::Primitive);
    let orders = simple_doc("Orders", "/", "Order", Schema::Primitive);
    let mut joiner = OpenAPIJoiner::new();
    assert_eq!(joiner.add(users, "/users", "users"), Ok(()));
    assert_eq!(joiner.add(orders, "/orders", "orders"), Ok(()));
    let templates: Vec<&str> =
        joiner.merged.paths.iter().map(|p| p.template.as_str()).collect();
    assert!(templates.contains(&"/users/"));
    assert!(templates.contains(&"/orders/"));
    assert!(has_component_entry(&joiner.merged, Category::Schemas, "users_User"));
    assert!(has_component_entry(&joiner.merged, Category::Schemas, "orders_Order"));
    assert_eq!(joiner.merged.info.as_ref().unwrap().title, "Users");
}

#[test]
fn reference_integrity_of_merged_document() {
    let users = simple_doc("Users", "/", "User", Schema::Primitive);
    let orders = simple_doc(
        "Orders",
        "/",
        "Order",
        Schema::Object {
            properties: vec![Property {
                name: "self_link".to_string(),
                schema: component_ref(Category::Schemas, "Order"),
            }],
            additional: None,
        },
    );
    let mut joiner = OpenAPIJoiner::new();
    assert_eq!(joiner.add(users, "/users", "users"), Ok(()));
    assert_eq!(joiner.add(orders, "/orders", "orders"), Ok(()));
    let mut refs: Vec<(Category, String)> = Vec::new();
    for p in &joiner.merged.paths {
        for o in &p.item.operations {
            collect_refs(&o.content, &mut refs);
        }
    }
    for c in &joiner.merged.components {
        collect_refs(&c.definition, &mut refs);
    }
    assert!(!refs.is_empty());
    for (category, name) in refs {
        assert!(
            has_component_entry(&joiner.merged, category, &name),
            "dangling reference to {:?}/{}",
            category,
            name
        );
    }
}

#[test]
fn prefix_collision_is_rejected() {
    let mut joiner = OpenAPIJoiner::new();
    let d1 = simple_doc("A", "/a", "Alpha", Schema::Primitive);
    let d2 = simple_doc("B", "/b", "Beta", Schema::Primitive);
    assert_eq!(joiner.add(d1, "/x", "app"), Ok(()));
    assert_eq!(joiner.add(d2, "/y", "app"), Err(JoinError::PrefixCollision));
    assert_eq!(joiner.merged.components.len(), 1);
}

#[test]
fn component_collision_is_rejected() {
    // distinct prefixes can still concatenate into the same key:
    // a + b_c and a_b + c both give a_b_c
    let mut joiner = OpenAPIJoiner::new();
    let d1 = simple_doc("A", "/a", "b_c", Schema::Primitive);
    let d2 = simple_doc("B", "/b", "c", Schema::Primitive);
    assert_eq!(joiner.add(d1, "/x", "a"), Ok(()));
    assert_eq!(joiner.add(d2, "/y", "a_b"), Err(JoinError::ComponentCollision));
    assert_eq!(joiner.merged.components.len(), 1);
    assert_eq!(joiner.merged.components[0].name, "a_b_c");
}

#[test]
fn path_collision_is_rejected() {
    let mut joiner = OpenAPIJoiner::new();
    let d1 = simple_doc("A", "/b/c", "Alpha", Schema::Primitive);
    let d2 = simple_doc("B", "/c", "Beta", Schema::Primitive);
    assert_eq!(joiner.add(d1, "/a", "p1"), Ok(()));
    assert_eq!(joiner.add(d2, "/a/b", "p2"), Err(JoinError::PathCollision));
    assert_eq!(joiner.merged.paths.len(), 1);
    assert_eq!(joiner.merged.paths[0].template, "/a/b/c");
}

#[test]
fn security_follows_first_document() {
    let mut users = simple_doc("Users", "/", "User", Schema::Primitive);
    users.security = Some(vec!["api_key".to_string()]);
    let mut orders = simple_doc("Orders", "/", "Order", Schema::Primitive);
    orders.security = Some(vec!["oauth".to_string()]);
    let mut joiner = OpenAPIJoiner::new();
    assert_eq!(joiner.add(users, "/users", "users"), Ok(()));
    assert_eq!(joiner.add(orders, "/orders", "orders"), Ok(()));
    assert_eq!(joiner.merged.security, Some(vec!["api_key".to_string()]));
}

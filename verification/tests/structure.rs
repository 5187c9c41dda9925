use encgraph::crypto::Crypto;
use encgraph::cypher::CypherQueryBuilder;
use encgraph::error::Error;
use encgraph::graph::prepare_create_single;
use encgraph::item::Item;
use encgraph::node::{Node, Relation};
use encgraph::rows::Inner;

fn s(x: &str) -> String {
    x.to_string()
}

fn strings(xs: &[&str]) -> Vec<String> {
    xs.iter().map(|x| x.to_string()).collect()
}

fn props(ps: &[(&str, &str)]) -> Vec<(String, String)> {
    ps.iter().map(|(k, v)| (k.to_string(), v.to_string())).collect()
}

#[test]
fn rendering_rejects_invalid_shapes() {
    // A shortest-path request has no direct backend rendering.
    let fsp = CypherQueryBuilder::new()
        .MATCH()
        .node(Node::new(Some(s("n")), Vec::new(), Vec::new()))
        .next_node(Node::new(Some(s("m")), Vec::new(), Vec::new()))
        .find_shortest_path()
        .build();
    assert_eq!(fsp.to_query_string(), Err(Error::InvalidQuery));

    // Binding existing endpoints needs their variable names.
    let nameless = CypherQueryBuilder::new()
        .MATCH()
        .CREATE()
        .node(Node::new(None, strings(&["A"]), Vec::new()))
        .relation(Relation::new(Some(s("r")), strings(&["R"]), Vec::new()))
        .next_node(Node::new(None, strings(&["B"]), Vec::new()))
        .build();
    assert_eq!(nameless.to_query_string(), Err(Error::MissingVarName));

    // A used list that renders to nothing is an error.
    let empty_return = CypherQueryBuilder::new()
        .MATCH()
        .node(Node::new(Some(s("n")), strings(&["A"]), Vec::new()))
        .RETURN(Vec::new())
        .build();
    assert_eq!(empty_return.to_query_string(), Err(Error::EmptyItemList));
}

#[test]
fn identities_are_fresh_per_entity() {
    let c = Crypto::new([9u8; 16]);
    let make = || {
        CypherQueryBuilder::new()
            .CREATE()
            .node(Node::new(Some(s("n")), strings(&["A"]), Vec::new()))
            .build()
    };
    let mut q1 = make();
    let mut q2 = make();
    let u1 = prepare_create_single(&c, &mut q1).unwrap();
    let u2 = prepare_create_single(&c, &mut q2).unwrap();
    assert_eq!(u1.len(), 36);
    assert_ne!(u1, u2);
}

#[test]
fn inner_accessors_use_first_match() {
    let mut inner = Inner::new(
        strings(&["L", "L", "M"]),
        props(&[("k", "v1"), ("k", "v2"), ("x", "y")]),
    );
    // Lookup sees the first pair with the key.
    assert_eq!(inner.get("k"), Some(&s("v1")));
    assert_eq!(inner.get("missing"), None);

    // Updates touch only the first pair with the key.
    assert!(inner.update_property("k", s("v9")));
    assert_eq!(inner.properties()[0], (s("k"), s("v9")));
    assert_eq!(inner.properties()[1], (s("k"), s("v2")));
    assert!(!inner.update_property("missing", s("z")));

    // Update-or-add appends only when the key is absent.
    inner.update_or_add_property("x", s("y2"));
    assert_eq!(inner.properties().len(), 3);
    inner.update_or_add_property("new", s("n1"));
    assert_eq!(inner.properties().len(), 4);

    // Removal drops the first occurrence only.
    assert!(inner.remove_property("k"));
    assert_eq!(inner.get("k"), Some(&s("v2")));
    assert!(inner.remove_label("L"));
    assert_eq!(inner.labels(), &strings(&["L", "M"]));
    assert!(!inner.remove_label("Z"));

    inner.add_label(s("N"));
    inner.add_property(s("p"), s("q"));
    assert_eq!(inner.labels().last(), Some(&s("N")));
    assert_eq!(inner.get("p"), Some(&s("q")));
}

#[test]
fn nodes_carry_their_parts() {
    let mut node = Node::new(Some(s("v")), strings(&["A"]), props(&[("k", "w")]));
    assert_eq!(node.var_name(), Some(&s("v")));
    node.add_property(s("k2"), s("w2"));
    assert_eq!(node.properties.len(), 2);

    let anon = Node::new_with_var("m");
    assert_eq!(anon.var_name(), Some(&s("m")));
    assert!(anon.labels.is_empty());

    let inner = Inner::new(strings(&["A"]), props(&[("k", "w")]));
    let back = inner.to_node();
    assert_eq!(back.var_name(), None);
    assert_eq!(back.labels, strings(&["A"]));
    assert_eq!(back.properties, props(&[("k", "w")]));
}

#[test]
fn unlabeled_relation_create_is_rejected() {
    let c = Crypto::new([3u8; 16]);
    let mut query = CypherQueryBuilder::new()
        .CREATE()
        .node(Node::new(Some(s("n")), strings(&["A"]), Vec::new()))
        .relation(Relation::new(Some(s("r")), Vec::new(), Vec::new()))
        .next_node(Node::new(Some(s("m")), strings(&["B"]), Vec::new()))
        .build();
    assert_eq!(
        encgraph::graph::prepare_create_pattern(&c, &mut query).err(),
        Some(Error::InvalidQuery)
    );

    let link = CypherQueryBuilder::new()
        .MATCH()
        .CREATE()
        .node(Node::new(Some(s("n")), strings(&["A"]), Vec::new()))
        .relation(Relation::new(Some(s("r")), Vec::new(), Vec::new()))
        .next_node(Node::new(Some(s("m")), strings(&["B"]), Vec::new()))
        .build();
    assert_eq!(
        encgraph::graph::build_link_create_query(&c, &link, &s("u1"), &s("u2")).err(),
        Some(Error::InvalidQuery)
    );
}

#[test]
fn client_supplied_reserved_keys_are_rejected() {
    // The proxy alone writes `uid` and `hash`; a create that brings its own
    // would break the one-of-each invariant and is refused.
    let c = Crypto::new([5u8; 16]);
    let mut query = CypherQueryBuilder::new()
        .CREATE()
        .node(Node::new(Some(s("n")), strings(&["A"]), props(&[("uid", "forged")])))
        .build();
    assert_eq!(
        encgraph::graph::prepare_create_single(&c, &mut query).err(),
        Some(Error::InvalidQuery)
    );

    let mut pattern = CypherQueryBuilder::new()
        .CREATE()
        .node(Node::new(Some(s("n")), strings(&["A"]), Vec::new()))
        .relation(Relation::new(Some(s("r")), strings(&["R"]), props(&[("hash", "forged")])))
        .next_node(Node::new(Some(s("m")), strings(&["B"]), Vec::new()))
        .build();
    assert_eq!(
        encgraph::graph::prepare_create_pattern(&c, &mut pattern).err(),
        Some(Error::InvalidQuery)
    );

    let link = CypherQueryBuilder::new()
        .MATCH()
        .CREATE()
        .node(Node::new(Some(s("n")), strings(&["A"]), Vec::new()))
        .relation(Relation::new(Some(s("r")), strings(&["R"]), Vec::new()))
        .next_node(Node::new(Some(s("m")), strings(&["B"]), props(&[("hash", "x")])))
        .build();
    assert_eq!(
        encgraph::graph::build_link_create_query(&c, &link, &s("u1"), &s("u2")).err(),
        Some(Error::InvalidQuery)
    );
}

#[test]
fn control_characters_ride_the_wire() {
    // Control characters are emitted as legal JSON escapes and come back.
    let value = "line1\nline2\ttab\u{1}\u{1f}end";
    let query = CypherQueryBuilder::new()
        .CREATE()
        .node(Node::new(Some(s("n")), strings(&["A"]), props(&[("k", value)])))
        .build();
    let text = query.serialize().unwrap();
    assert!(!text.contains('\u{1}'));
    assert!(text.contains("\\u0001"));
    assert!(text.contains("\\u001f"));
    let value2: serde_json::Value = serde_json::from_str(&text).unwrap();
    assert_eq!(value2["node"]["properties"][0][1], serde_json::Value::String(s(value)));
    let back = encgraph::cypher::CypherQuery::deserialize(&text).unwrap();
    assert_eq!(back.node.as_ref().unwrap().properties[0].1, value);
}

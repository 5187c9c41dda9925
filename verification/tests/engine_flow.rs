use encgraph::bfs::{build_endpoints_query, PathFinder, PathStep};
use encgraph::canon::confuse_var_name;
use encgraph::crypto::Crypto;
use encgraph::cypher::{CRUDtype, CypherQuery, CypherQueryBuilder};
use encgraph::error::Error;
use encgraph::graph::{
    build_link_read_query, build_update_read_query, get_return_vars, prepare_create_pattern,
    prepare_create_single, push_first_row, strip_reserved, update_inners_by_remove,
    update_inners_by_set,
};
use encgraph::item::Item;
use encgraph::node::{Node, Relation};
use encgraph::rows::{Inner, Row, Rows};

const KEY: [u8; 16] = [1, 2, 3, 4, 5, 6, 7, 8, 9, 10, 11, 12, 13, 14, 15, 16];

fn s(x: &str) -> String {
    x.to_string()
}

fn strings(xs: &[&str]) -> Vec<String> {
    xs.iter().map(|x| x.to_string()).collect()
}

fn props(ps: &[(&str, &str)]) -> Vec<(String, String)> {
    ps.iter().map(|(k, v)| (k.to_string(), v.to_string())).collect()
}

#[test]
fn canonicalizer_hides_client_names() {
    let mut query = CypherQueryBuilder::new()
        .MATCH()
        .node(Node::new(Some(s("alice")), strings(&["Student"]), props(&[("name", "Alice")])))
        .relation(Relation::new(Some(s("likes")), strings(&["Like"]), Vec::new()))
        .next_node(Node::new(Some(s("john")), strings(&["Student"]), Vec::new()))
        .RETURN(vec![
            Item::Var(s("alice")),
            Item::Var(s("likes")),
            Item::VarWithKey(s("john"), s("age")),
        ])
        .build();
    confuse_var_name(&mut query).unwrap();
    assert_eq!(query.node.as_ref().unwrap().var_name, Some(s("n")));
    assert_eq!(query.relation.as_ref().unwrap().var_name, Some(s("r")));
    assert_eq!(query.next_node.as_ref().unwrap().var_name, Some(s("m")));

    let text = query.to_query_string().unwrap();
    assert_eq!(
        text,
        "MATCH (n:Student {name: 'Alice'})-[r:Like]->(m:Student) RETURN n, r, m.age"
    );
    // No client-chosen name survives anywhere in the emitted text.
    assert!(!text.contains("alice"));
    assert!(!text.contains("likes"));
    assert!(!text.contains("john"));
}

#[test]
fn undeclared_item_references_are_rejected() {
    let mut query = CypherQueryBuilder::new()
        .MATCH()
        .node(Node::new(Some(s("a")), strings(&["Student"]), Vec::new()))
        .RETURN(vec![Item::Var(s("a")), Item::Var(s("ghost_name"))])
        .build();
    assert_eq!(confuse_var_name(&mut query), Err(Error::InvalidQuery));
    // The query is left untouched on rejection.
    assert_eq!(query.node.as_ref().unwrap().var_name, Some(s("a")));
}

#[test]
fn classification_follows_the_shape_table() {
    let create = CypherQueryBuilder::new()
        .CREATE()
        .node(Node::new(Some(s("n")), Vec::new(), Vec::new()))
        .build();
    assert_eq!(create.get_type().unwrap(), CRUDtype::Create);

    let read = CypherQueryBuilder::new()
        .MATCH()
        .node(Node::new(Some(s("n")), Vec::new(), Vec::new()))
        .RETURN(vec![Item::Var(s("n"))])
        .build();
    assert_eq!(read.get_type().unwrap(), CRUDtype::Read);

    let update = CypherQueryBuilder::new()
        .MATCH()
        .node(Node::new(Some(s("n")), Vec::new(), Vec::new()))
        .SET(vec![Item::VarWithKeyValue(s("n"), s("k"), s("v"))])
        .build();
    assert_eq!(update.get_type().unwrap(), CRUDtype::Update);

    let delete = CypherQueryBuilder::new()
        .MATCH()
        .node(Node::new(Some(s("n")), Vec::new(), Vec::new()))
        .DELETE(vec![Item::Var(s("n"))], true)
        .build();
    assert_eq!(delete.get_type().unwrap(), CRUDtype::Delete);

    let shortest = CypherQueryBuilder::new()
        .MATCH()
        .node(Node::new(Some(s("n")), Vec::new(), Vec::new()))
        .next_node(Node::new(Some(s("m")), Vec::new(), Vec::new()))
        .find_shortest_path()
        .build();
    assert_eq!(shortest.get_type().unwrap(), CRUDtype::FindShortestPath);

    // CREATE and MATCH flags together without a relation match no shape.
    let invalid = CypherQueryBuilder::new()
        .MATCH()
        .CREATE()
        .node(Node::new(Some(s("n")), Vec::new(), Vec::new()))
        .build();
    assert_eq!(invalid.get_type(), Err(Error::InvalidQuery));

    // A query without a node matches no shape either.
    let empty = CypherQueryBuilder::new().MATCH().build();
    assert_eq!(empty.get_type(), Err(Error::InvalidQuery));
}

#[test]
fn set_and_remove_rewrite_matched_inners() {
    // SET n:Undergraduate, n.univ = 'Nanjing univ' over one student.
    let mut inners = vec![Inner::new(
        strings(&["Student"]),
        props(&[("name", "Bob"), ("age", "23")]),
    )];
    let set_list = vec![
        Item::VarWithLabel(s("n"), s("Undergraduate")),
        Item::VarWithKeyValue(s("n"), s("univ"), s("Nanjing univ")),
        Item::VarWithKeyValue(s("n"), s("age"), s("24")),
    ];
    update_inners_by_set(&mut inners, Some(&set_list)).unwrap();
    assert_eq!(inners[0].labels(), &strings(&["Student", "Undergraduate"]));
    assert_eq!(inners[0].get("univ"), Some(&s("Nanjing univ")));
    assert_eq!(inners[0].get("age"), Some(&s("24")));

    // REMOVE n:Intern, n.location.
    let mut inners = vec![Inner::new(
        strings(&["Student", "Intern"]),
        props(&[("name", "Bob"), ("location", "nanjing")]),
    )];
    let remove_list = vec![
        Item::VarWithLabel(s("n"), s("Intern")),
        Item::VarWithKey(s("n"), s("location")),
    ];
    update_inners_by_remove(&mut inners, Some(&remove_list)).unwrap();
    assert_eq!(inners[0].labels(), &strings(&["Student"]));
    assert_eq!(inners[0].get("location"), None);
    assert_eq!(inners[0].get("name"), Some(&s("Bob")));

    // A relation's label may not be removed.
    let mut three = vec![
        Inner::new(Vec::new(), Vec::new()),
        Inner::new(strings(&["Knows"]), Vec::new()),
        Inner::new(Vec::new(), Vec::new()),
    ];
    let bad = vec![Item::VarWithLabel(s("r"), s("Knows"))];
    assert_eq!(update_inners_by_remove(&mut three, Some(&bad)), Err(Error::InvalidQuery));

    // An unknown variable name is rejected.
    let mut one = vec![Inner::new(Vec::new(), Vec::new())];
    let bad = vec![Item::VarWithKeyValue(s("x"), s("k"), s("v"))];
    assert_eq!(update_inners_by_set(&mut one, Some(&bad)), Err(Error::InvalidQuery));

    // A SET entry addressing a missing inner is rejected.
    let mut one = vec![Inner::new(Vec::new(), Vec::new())];
    let bad = vec![Item::VarWithKeyValue(s("m"), s("k"), s("v"))];
    assert_eq!(update_inners_by_set(&mut one, Some(&bad)), Err(Error::InvalidQuery));

    // The reserved bookkeeping keys may not be set or removed by clients.
    let mut one = vec![Inner::new(Vec::new(), props(&[("uid", "u")]))];
    let bad = vec![Item::VarWithKeyValue(s("n"), s("hash"), s("forged"))];
    assert_eq!(update_inners_by_set(&mut one, Some(&bad)), Err(Error::InvalidQuery));
    let bad = vec![Item::VarWithKey(s("n"), s("uid"))];
    assert_eq!(update_inners_by_remove(&mut one, Some(&bad)), Err(Error::InvalidQuery));
}

#[test]
fn create_preparation_attaches_identity_and_digest() {
    let c = Crypto::new(KEY);
    let mut query = CypherQueryBuilder::new()
        .CREATE()
        .node(Node::new(Some(s("n")), strings(&["Student"]), props(&[("name", "Alice")])))
        .RETURN(vec![Item::Var(s("n"))])
        .build();
    let uid = prepare_create_single(&c, &mut query).unwrap();
    assert_eq!(uid.len(), 36);
    let node = query.node.as_ref().unwrap();
    // User content is tokenized; the reserved pairs stay plaintext.
    assert_eq!(node.labels.len(), 1);
    assert_eq!(node.properties.len(), 3);
    for label in &node.labels {
        assert!(label.starts_with('a'));
    }
    for (k, v) in &node.properties {
        if k != "uid" && k != "hash" {
            assert!(k.starts_with('a'));
            assert!(v.starts_with('a'));
        }
    }
    // The plaintext uid property carries the returned identity.
    let stored = node.properties.iter().find(|(k, _)| k == "uid").unwrap();
    assert_eq!(stored.1, uid);
    // The plaintext hash property carries the hex digest.
    let digest = node.properties.iter().find(|(k, _)| k == "hash").unwrap();
    assert_eq!(digest.1.len(), 64);
}

#[test]
fn pattern_create_links_both_identities() {
    let c = Crypto::new(KEY);
    let mut query = CypherQueryBuilder::new()
        .CREATE()
        .node(Node::new(Some(s("n")), strings(&["Student"]), props(&[("name", "Bob")])))
        .relation(Relation::new(Some(s("r")), strings(&["Knows"]), props(&[("time", "1year")])))
        .next_node(Node::new(Some(s("m")), strings(&["Student"]), props(&[("name", "John")])))
        .build();
    let (from, to) = prepare_create_pattern(&c, &mut query).unwrap();
    assert_eq!(from.len(), 36);
    assert_eq!(to.len(), 36);
    let rel = query.relation.as_ref().unwrap();
    let stored = rel.properties.iter().find(|(k, _)| k == "uid").unwrap();
    let mut composite = from.clone();
    composite.push_str(&to);
    assert_eq!(stored.1, composite);
}

#[test]
fn staged_read_queries_take_canonical_shape() {
    let query = CypherQueryBuilder::new()
        .MATCH()
        .node(Node::new(Some(s("n")), strings(&["Student"]), props(&[("name", "Alice")])))
        .relation(Relation::new(Some(s("r")), strings(&["Like"]), Vec::new()))
        .next_node(Node::new(Some(s("m")), strings(&["Student"]), props(&[("name", "John")])))
        .CREATE()
        .build();
    let read = build_link_read_query(&query);
    assert_eq!(
        read.to_query_string().unwrap(),
        "MATCH (n:Student {name: 'Alice'}), (m:Student {name: 'John'}) RETURN n, m"
    );

    let update = CypherQueryBuilder::new()
        .MATCH()
        .node(Node::new(Some(s("n")), strings(&["Student"]), Vec::new()))
        .SET(vec![Item::VarWithKeyValue(s("n"), s("univ"), s("Nanjing univ"))])
        .build();
    let read = build_update_read_query(&update);
    assert_eq!(read.to_query_string().unwrap(), "MATCH (n:Student) RETURN n");
    assert_eq!(get_return_vars(&read), strings(&["n"]));
}

#[test]
fn result_assembly_and_stripping() {
    let mut res = Rows::new_empty();
    let mut one = Rows::new_empty();
    let mut row = Row::new_empty();
    row.push(Inner::new(
        strings(&["Student"]),
        props(&[("name", "Alice"), ("uid", "u1"), ("hash", "h1")]),
    ));
    one.push(row);
    push_first_row(&mut res, &one);
    push_first_row(&mut res, &Rows::new_empty());
    assert_eq!(res.rows().len(), 1);

    let clean = strip_reserved(&res);
    let inner = &clean.rows()[0].inners()[0];
    assert_eq!(inner.get("name"), Some(&s("Alice")));
    assert_eq!(inner.get("uid"), None);
    assert_eq!(inner.get("hash"), None);
    assert_eq!(inner.labels(), &strings(&["Student"]));
}

#[test]
fn rows_wire_round_trip() {
    let mut rows = Rows::new_empty();
    let mut row = Row::new_empty();
    row.push(Inner::new(strings(&["A"]), props(&[("k", "v with \"quotes\" and \\slashes\\")])));
    row.push(Inner::new(Vec::new(), Vec::new()));
    rows.push(row);
    rows.push(Row::new_empty());

    let text = rows.serialize().unwrap();
    let back = Rows::deserialize(&text).unwrap();
    assert_eq!(back.serialize().unwrap(), text);
    assert_eq!(back.rows().len(), 2);
    assert_eq!(
        back.rows()[0].inners()[0].get("k"),
        Some(&s("v with \"quotes\" and \\slashes\\"))
    );
    assert!(Rows::deserialize("{\"rows\":[").is_err());
    assert!(Rows::deserialize("garbage").is_err());
}

/// Drives the engine against an in-memory adjacency, answering each
/// expansion with the node's full neighbor list.
fn run_search(adjacency: &[(&str, &[&str])], src: &str, dst: &str) -> Rows {
    let src_inner = Inner::new(Vec::new(), props(&[("uid", src), ("name", src)]));
    let mut engine = PathFinder::start(s(src), src_inner, s(dst));
    loop {
        match engine.step() {
            PathStep::Found(rows) => return rows,
            PathStep::Exhausted(rows) => return rows,
            PathStep::Expand(query) => {
                let cur = query.node.as_ref().unwrap().properties[0].1.clone();
                let neighbors: &[&str] = adjacency
                    .iter()
                    .find(|(u, _)| *u == cur)
                    .map(|(_, vs)| *vs)
                    .unwrap_or(&[]);
                let mut rows = Rows::new_empty();
                for v in neighbors {
                    let mut row = Row::new_empty();
                    let mut composite = cur.clone();
                    composite.push_str(v);
                    row.push(Inner::new(strings(&["knows"]), props(&[("uid", &composite)])));
                    row.push(Inner::new(Vec::new(), props(&[("uid", v), ("name", v)])));
                    rows.push(row);
                }
                engine.feed(&rows).unwrap();
            },
        }
    }
}

#[test]
fn shortest_path_in_sample_graph() {
    let graph: &[(&str, &[&str])] = &[
        ("a", &["b"]),
        ("b", &["c", "e"]),
        ("c", &["d"]),
        ("d", &["e"]),
        ("e", &["f", "h"]),
        ("f", &["g"]),
        ("g", &["h"]),
        ("h", &[]),
    ];
    let rows = run_search(graph, "a", "g");
    assert_eq!(rows.rows().len(), 1);
    let path: Vec<&String> = rows.rows()[0]
        .inners()
        .iter()
        .map(|x| x.get("name").unwrap())
        .collect();
    assert_eq!(path, vec!["a", "b", "e", "f", "g"]);
}

#[test]
fn unreachable_destination_yields_empty_rows() {
    let graph: &[(&str, &[&str])] = &[("a", &["b"]), ("b", &[]), ("g", &["a"])];
    let rows = run_search(graph, "a", "g");
    assert!(rows.is_empty());
}

#[test]
fn source_equal_to_destination_is_a_single_node_path() {
    let rows = run_search(&[("a", &["a"])], "a", "a");
    assert_eq!(rows.rows().len(), 1);
    assert_eq!(rows.rows()[0].inners().len(), 1);
}

#[test]
fn substituted_edge_is_detected() {
    let src_inner = Inner::new(Vec::new(), props(&[("uid", "a")]));
    let mut engine = PathFinder::start(s("a"), src_inner, s("z"));
    match engine.step() {
        PathStep::Expand(_) => (),
        _ => panic!("expected an expansion"),
    }
    // The relation's composite identity does not match the expanded node.
    let mut rows = Rows::new_empty();
    let mut row = Row::new_empty();
    row.push(Inner::new(Vec::new(), props(&[("uid", "xb")])));
    row.push(Inner::new(Vec::new(), props(&[("uid", "b")])));
    rows.push(row);
    assert_eq!(engine.feed(&rows), Err(Error::Tamper));
}

#[test]
fn endpoint_lookup_must_be_unambiguous() {
    let query = build_endpoints_query(
        Node::new(None, strings(&["Person"]), props(&[("name", "a")])),
        Node::new(None, strings(&["Person"]), props(&[("name", "g")])),
    );
    assert_eq!(
        query.to_query_string().unwrap(),
        "MATCH (n:Person {name: 'a'}), (m:Person {name: 'g'}) RETURN n, m"
    );

    // One row with two identified endpoints starts the engine.
    let mut rows = Rows::new_empty();
    let mut row = Row::new_empty();
    row.push(Inner::new(Vec::new(), props(&[("uid", "ua")])));
    row.push(Inner::new(Vec::new(), props(&[("uid", "ug")])));
    rows.push(row);
    assert!(PathFinder::from_endpoints(&rows).is_ok());

    // No binding, an ambiguous binding, or a missing identity are tampering.
    assert_eq!(PathFinder::from_endpoints(&Rows::new_empty()).err(), Some(Error::Tamper));
    let mut two = Rows::new_empty();
    let mut r1 = Row::new_empty();
    r1.push(Inner::new(Vec::new(), props(&[("uid", "ua")])));
    r1.push(Inner::new(Vec::new(), props(&[("uid", "ug")])));
    two.push(r1);
    two.push(Row::new_empty());
    assert_eq!(PathFinder::from_endpoints(&two).err(), Some(Error::Tamper));
    let mut missing = Rows::new_empty();
    let mut r2 = Row::new_empty();
    r2.push(Inner::new(Vec::new(), Vec::new()));
    r2.push(Inner::new(Vec::new(), props(&[("uid", "ug")])));
    missing.push(r2);
    assert_eq!(PathFinder::from_endpoints(&missing).err(), Some(Error::Tamper));
}

#[test]
fn query_wire_text_is_plain_json() {
    // The canonical wire form parses as ordinary JSON with the agreed shape.
    let query = CypherQueryBuilder::new()
        .MATCH()
        .node(Node::new(Some(s("n")), strings(&["Student"]), props(&[("name", "A\"B")])))
        .RETURN(vec![Item::Var(s("n")), Item::VarWithLabel(s("n"), s("L"))])
        .DELETE(vec![Item::Var(s("n"))], false)
        .build();
    let text = query.serialize().unwrap();
    let value: serde_json::Value = serde_json::from_str(&text).unwrap();
    assert_eq!(value["use_match"], serde_json::Value::Bool(true));
    assert_eq!(value["node"]["var_name"], serde_json::Value::String(s("n")));
    assert_eq!(value["node"]["properties"][0][1], serde_json::Value::String(s("A\"B")));
    assert_eq!(value["return_list"][1]["VarWithLabel"][0], serde_json::Value::String(s("n")));
    assert_eq!(value["delete_list"][1], serde_json::Value::Bool(false));
}

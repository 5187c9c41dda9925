use encgraph::cypher::{CypherQuery, CypherQueryBuilder};
use encgraph::item::Item;
use encgraph::node::{Node, Relation};

fn s(x: &str) -> String {
    x.to_string()
}

fn strings(xs: &[&str]) -> Vec<String> {
    xs.iter().map(|x| x.to_string()).collect()
}

fn props(ps: &[(&str, &str)]) -> Vec<(String, String)> {
    ps.iter().map(|(k, v)| (k.to_string(), v.to_string())).collect()
}

// CREATE (n:label1:label2 {k1: 'v1', k2: 'v2'}) RETURN n
#[test]
fn test_create() {
    let query = CypherQueryBuilder::new()
        .CREATE()
        .node(Node::new(
            Some(s("n")),
            strings(&["label1", "label2"]),
            props(&[("k1", "v1"), ("k2", "v2")]),
        ))
        .RETURN(vec![Item::Var(String::from("n"))])
        .build();

    let query_str = query.to_query_string().unwrap();
    assert_eq!(
        query_str,
        "CREATE (n:label1:label2 {k1: 'v1', k2: 'v2'}) RETURN n"
    );

    let serialized = query.serialize().unwrap();
    let deserilized = CypherQuery::deserialize(&serialized).unwrap();
    let query_str2 = deserilized.to_query_string().unwrap();
    assert_eq!(query_str, query_str2);
}

// CREATE (a:label1:label2 {k1: 'v1', k2: 'v2'})-[r:rlabel1:rlabel2 {rk1: 'rv1', rk2: 'rv2'}]->(b:label1:label2 {k1: 'nv1', k2: 'nv2'}) RETURN a, r, b
#[test]
fn test_create2() {
    let query = CypherQueryBuilder::new()
        .CREATE()
        .node(Node::new(
            Some(s("a")),
            strings(&["label1", "label2"]),
            props(&[("k1", "v1"), ("k2", "v2")]),
        ))
        .relation(Relation::new(
            Some(s("r")),
            strings(&["rlabel1", "rlabel2"]),
            props(&[("rk1", "rv1"), ("rk2", "rv2")]),
        ))
        .next_node(Node::new(
            Some(s("b")),
            strings(&["label1", "label2"]),
            props(&[("k1", "nv1"), ("k2", "nv2")]),
        ))
        .RETURN(vec![
            Item::Var(String::from("a")),
            Item::Var(String::from("r")),
            Item::Var(String::from("b")),
        ])
        .build();

    let query_str = query.to_query_string().unwrap();
    assert_eq!(query_str, "CREATE (a:label1:label2 {k1: 'v1', k2: 'v2'})-[r:rlabel1:rlabel2 {rk1: 'rv1', rk2: 'rv2'}]->(b:label1:label2 {k1: 'nv1', k2: 'nv2'}) RETURN a, r, b");

    let serialized = query.serialize().unwrap();
    let deserilized = CypherQuery::deserialize(&serialized).unwrap();
    let query_str2 = deserilized.to_query_string().unwrap();
    assert_eq!(query_str, query_str2);
}

// MATCH (a:label1:label2 {k1: 'v1', k2: 'v2'}), (b:label1:label2 {k1: 'nv1', k2: 'nv2'}) CREATE (a)-[r:rlabel1 {rk1: 'rv1', rk2: 'rv2'}]->(b) RETURN r
#[test]
fn test_create3() {
    let query = CypherQueryBuilder::new()
        .MATCH()
        .node(Node::new(
            Some(s("a")),
            strings(&["label1", "label2"]),
            props(&[("k1", "v1"), ("k2", "v2")]),
        ))
        .next_node(Node::new(
            Some(s("b")),
            strings(&["label1", "label2"]),
            props(&[("k1", "nv1"), ("k2", "nv2")]),
        ))
        .CREATE()
        .relation(Relation::new(
            Some(s("r")),
            strings(&["rlabel1"]),
            props(&[("rk1", "rv1"), ("rk2", "rv2")]),
        ))
        .RETURN(vec![Item::Var(String::from("r"))])
        .build();

    let query_str = query.to_query_string().unwrap();
    assert_eq!(query_str, "MATCH (a:label1:label2 {k1: 'v1', k2: 'v2'}), (b:label1:label2 {k1: 'nv1', k2: 'nv2'}) CREATE (a)-[r:rlabel1 {rk1: 'rv1', rk2: 'rv2'}]->(b) RETURN r");

    let serialized = query.serialize().unwrap();
    let deserilized = CypherQuery::deserialize(&serialized).unwrap();
    let query_str2 = deserilized.to_query_string().unwrap();
    assert_eq!(query_str, query_str2);
}

// MATCH (n:label1:label2 {k1: 'v1'}) RETURN n
#[test]
fn test_match1() {
    let query = CypherQueryBuilder::new()
        .MATCH()
        .node(Node::new(
            Some(s("n")),
            strings(&["label1", "label2"]),
            props(&[("k1", "v1")]),
        ))
        .RETURN(vec![Item::Var(String::from("n"))])
        .build();

    let query_str = query.to_query_string().unwrap();
    assert_eq!(query_str, "MATCH (n:label1:label2 {k1: 'v1'}) RETURN n");

    let serialized = query.serialize().unwrap();
    let deserilized = CypherQuery::deserialize(&serialized).unwrap();
    let query_str2 = deserilized.to_query_string().unwrap();
    assert_eq!(query_str, query_str2);
}

// MATCH (a:label1 {k2: 'v2'})-[r:rlabel1 {rk1: 'rv1'}]->(b:label1) RETURN a, r, b
#[test]
fn test_match2() {
    let query = CypherQueryBuilder::new()
        .MATCH()
        .node(Node::new(Some(s("a")), strings(&["label1"]), props(&[("k2", "v2")])))
        .relation(Relation::new(
            Some(s("r")),
            strings(&["rlabel1"]),
            props(&[("rk1", "rv1")]),
        ))
        .next_node(Node::new(Some(s("b")), strings(&["label1"]), Vec::new()))
        .RETURN(vec![
            Item::Var(String::from("a")),
            Item::Var(String::from("r")),
            Item::Var(String::from("b")),
        ])
        .build();

    let query_str = query.to_query_string().unwrap();
    assert_eq!(
        query_str,
        "MATCH (a:label1 {k2: 'v2'})-[r:rlabel1 {rk1: 'rv1'}]->(b:label1) RETURN a, r, b"
    );

    let serialized = query.serialize().unwrap();
    let deserilized = CypherQuery::deserialize(&serialized).unwrap();
    let query_str2 = deserilized.to_query_string().unwrap();
    assert_eq!(query_str, query_str2);
}

// MATCH (n:label1 {k1: 'v1'}) SET n:label3, n.k1 = 'new_v1', n.k3 = 'v3' RETURN n
#[test]
fn test_set() {
    let query = CypherQueryBuilder::new()
        .MATCH()
        .node(Node::new(Some(s("n")), strings(&["label1"]), props(&[("k1", "v1")])))
        .SET(vec![
            Item::VarWithLabel(String::from("n"), String::from("label3")),
            Item::VarWithKeyValue(
                String::from("n"),
                String::from("k1"),
                String::from("new_v1"),
            ),
            Item::VarWithKeyValue(String::from("n"), String::from("k3"), String::from("v3")),
        ])
        .RETURN(vec![Item::Var(String::from("n"))])
        .build();

    let query_str = query.to_query_string().unwrap();
    assert_eq!(
        query_str,
        "MATCH (n:label1 {k1: 'v1'})  SET n:label3, n.k1 = 'new_v1', n.k3 = 'v3' RETURN n"
    );

    let serialized = query.serialize().unwrap();
    let deserilized = CypherQuery::deserialize(&serialized).unwrap();
    let query_str2 = deserilized.to_query_string().unwrap();
    assert_eq!(query_str, query_str2);
}

// MATCH (a:label1 {k1: 'v1'})-[r]->() SET r.rk1 = 'new_rv1', r.rk3 = 'rv3'
#[test]
fn test_set2() {
    let query = CypherQueryBuilder::new()
        .MATCH()
        .node(Node::new(Some(s("a")), strings(&["label1"]), props(&[("k1", "v1")])))
        .relation(Relation::new(Some(s("r")), Vec::new(), Vec::new()))
        .next_node(Node::new(None, Vec::new(), Vec::new()))
        .SET(vec![
            Item::VarWithKeyValue(
                String::from("r"),
                String::from("rk1"),
                String::from("new_rv1"),
            ),
            Item::VarWithKeyValue(String::from("r"), String::from("rk3"), String::from("rv3")),
        ])
        .build();

    let query_str = query.to_query_string().unwrap();
    assert_eq!(
        query_str,
        "MATCH (a:label1 {k1: 'v1'})-[r]->()  SET r.rk1 = 'new_rv1', r.rk3 = 'rv3' "
    );

    let serialized = query.serialize().unwrap();
    let deserilized = CypherQuery::deserialize(&serialized).unwrap();
    let query_str2 = deserilized.to_query_string().unwrap();
    assert_eq!(query_str, query_str2);
}

// MATCH (n:label1 {k1: 'v1'}) REMOVE n:label3, n.k3
#[test]
fn test_remove() {
    let query = CypherQueryBuilder::new()
        .MATCH()
        .node(Node::new(Some(s("n")), strings(&["label1"]), props(&[("k1", "v1")])))
        .REMOVE(vec![
            Item::VarWithLabel(String::from("n"), String::from("label3")),
            Item::VarWithKey(String::from("n"), String::from("k3")),
        ])
        .build();

    let query_str = query.to_query_string().unwrap();
    assert_eq!(
        query_str,
        "MATCH (n:label1 {k1: 'v1'}) REMOVE n:label3, n.k3  "
    );

    let serialized = query.serialize().unwrap();
    let deserilized = CypherQuery::deserialize(&serialized).unwrap();
    let query_str2 = deserilized.to_query_string().unwrap();
    assert_eq!(query_str, query_str2);
}

// MATCH (:label1:label2 {k1: 'v1'})-[r]->(:label1:label2 {k1: 'nv1'}) REMOVE r.rk3 RETURN r
#[test]
fn test_remove2() {
    let query = CypherQueryBuilder::new()
        .MATCH()
        .node(Node::new(
            None,
            strings(&["label1", "label2"]),
            props(&[("k1", "v1")]),
        ))
        .relation(Relation::new(Some(s("r")), Vec::new(), Vec::new()))
        .next_node(Node::new(
            None,
            strings(&["label1", "label2"]),
            props(&[("k1", "nv1")]),
        ))
        .REMOVE(vec![Item::VarWithKey(String::from("r"), String::from("rk3"))])
        .RETURN(vec![Item::Var(String::from("r"))])
        .build();

    let query_str = query.to_query_string().unwrap();
    assert_eq!(
        query_str,
        "MATCH (:label1:label2 {k1: 'v1'})-[r]->(:label1:label2 {k1: 'nv1'}) REMOVE r.rk3  RETURN r"
    );

    let serialized = query.serialize().unwrap();
    let deserilized = CypherQuery::deserialize(&serialized).unwrap();
    let query_str2 = deserilized.to_query_string().unwrap();
    assert_eq!(query_str, query_str2);
}

// MATCH (n:label1 {k1: 'v1'}) REMOVE n:label3, n.k3 SET n.k4 = 'v4'
#[test]
fn test_remove_set() {
    let query = CypherQueryBuilder::new()
        .MATCH()
        .node(Node::new(Some(s("n")), strings(&["label1"]), props(&[("k1", "v1")])))
        .REMOVE(vec![
            Item::VarWithLabel(String::from("n"), String::from("label3")),
            Item::VarWithKey(String::from("n"), String::from("k3")),
        ])
        .SET(vec![Item::VarWithKeyValue(
            String::from("n"),
            String::from("k4"),
            String::from("v4"),
        )])
        .build();

    let query_str = query.to_query_string().unwrap();
    assert_eq!(
        query_str,
        "MATCH (n:label1 {k1: 'v1'}) REMOVE n:label3, n.k3 SET n.k4 = 'v4' "
    );

    let serialized = query.serialize().unwrap();
    let deserilized = CypherQuery::deserialize(&serialized).unwrap();
    let query_str2 = deserilized.to_query_string().unwrap();
    assert_eq!(query_str, query_str2);
}

// MATCH (:label1:label2 {k1: 'v1'})-[r]->(:label1:label2 {k1: 'nv1'}) REMOVE r.rk3 SET r.rk4 = 'rv4' RETURN r
#[test]
fn test_remove_set2() {
    let query = CypherQueryBuilder::new()
        .MATCH()
        .node(Node::new(
            None,
            strings(&["label1", "label2"]),
            props(&[("k1", "v1")]),
        ))
        .relation(Relation::new(Some(s("r")), Vec::new(), Vec::new()))
        .next_node(Node::new(
            None,
            strings(&["label1", "label2"]),
            props(&[("k1", "nv1")]),
        ))
        .REMOVE(vec![Item::VarWithKey(String::from("r"), String::from("rk3"))])
        .SET(vec![Item::VarWithKeyValue(
            String::from("r"),
            String::from("rk4"),
            String::from("rv4"),
        )])
        .RETURN(vec![Item::Var(String::from("r"))])
        .build();

    let query_str = query.to_query_string().unwrap();
    assert_eq!(
        query_str,
        "MATCH (:label1:label2 {k1: 'v1'})-[r]->(:label1:label2 {k1: 'nv1'}) REMOVE r.rk3 SET r.rk4 = 'rv4' RETURN r"
    );

    let serialized = query.serialize().unwrap();
    let deserilized = CypherQuery::deserialize(&serialized).unwrap();
    let query_str2 = deserilized.to_query_string().unwrap();
    assert_eq!(query_str, query_str2);
}

// MATCH (n:label1 {k1: 'v1'})-[r]->() DELETE n, r
#[test]
fn test_delete1() {
    let query = CypherQueryBuilder::new()
        .MATCH()
        .node(Node::new(Some(s("n")), strings(&["label1"]), props(&[("k1", "v1")])))
        .relation(Relation::new(Some(s("r")), Vec::new(), Vec::new()))
        .next_node(Node::new(None, Vec::new(), Vec::new()))
        .DELETE(
            vec![Item::Var(String::from("n")), Item::Var(String::from("r"))],
            false,
        )
        .build();

    let query_str = query.to_query_string().unwrap();
    assert_eq!(query_str, "MATCH (n:label1 {k1: 'v1'})-[r]->() DELETE n, r ");

    let serialized = query.serialize().unwrap();
    let deserilized = CypherQuery::deserialize(&serialized).unwrap();
    let query_str2 = deserilized.to_query_string().unwrap();
    assert_eq!(query_str, query_str2);
}

// MATCH (n:label1 {k1: 'v1'}) DETACH DELETE n
#[test]
fn test_delete2() {
    let query = CypherQueryBuilder::new()
        .MATCH()
        .node(Node::new(Some(s("n")), strings(&["label1"]), props(&[("k1", "v1")])))
        .DELETE(vec![Item::Var(String::from("n"))], true)
        .build();

    let query_str = query.to_query_string().unwrap();
    assert_eq!(query_str, "MATCH (n:label1 {k1: 'v1'}) DETACH DELETE n ");

    let serialized = query.serialize().unwrap();
    let deserilized = CypherQuery::deserialize(&serialized).unwrap();
    let query_str2 = deserilized.to_query_string().unwrap();
    assert_eq!(query_str, query_str2);
}

// MATCH (n) DETACH DELETE n
#[test]
fn test_delete3() {
    let query = CypherQueryBuilder::new()
        .MATCH()
        .node(Node::new(Some(s("n")), Vec::new(), Vec::new()))
        .DELETE(vec![Item::Var(String::from("n"))], true)
        .build();

    let query_str = query.to_query_string().unwrap();
    assert_eq!(query_str, "MATCH (n) DETACH DELETE n ");

    let serialized = query.serialize().unwrap();
    let deserilized = CypherQuery::deserialize(&serialized).unwrap();
    let query_str2 = deserilized.to_query_string().unwrap();
    assert_eq!(query_str, query_str2);
}

use encgraph::crypto::Crypto;
use encgraph::cypher::CypherQueryBuilder;
use encgraph::digest::content_hash;
use encgraph::error::Error;
use encgraph::item::Item;
use encgraph::node::Node;
use encgraph::rows::{Inner, Row};

const KEY: [u8; 16] = [7, 1, 4, 1, 5, 9, 2, 6, 5, 3, 5, 8, 9, 7, 9, 3];

fn s(x: &str) -> String {
    x.to_string()
}

fn strings(xs: &[&str]) -> Vec<String> {
    xs.iter().map(|x| x.to_string()).collect()
}

fn props(ps: &[(&str, &str)]) -> Vec<(String, String)> {
    ps.iter().map(|(k, v)| (k.to_string(), v.to_string())).collect()
}

#[test]
fn token_is_deterministic_and_opaque() {
    let c1 = Crypto::new(KEY);
    let c2 = Crypto::new(KEY);
    let t1 = c1.wrap_token("Alice");
    let t2 = c1.wrap_token("Alice");
    let t3 = c2.wrap_token("Alice");
    // Stable across calls and across engine instances with the same key.
    assert_eq!(t1, t2);
    assert_eq!(t1, t3);
    // Tokenized, not echoed: magic prefix, no plaintext.
    assert!(t1.starts_with('a'));
    assert_ne!(t1, "Alice");
    // Different plaintext, different token.
    assert_ne!(t1, c1.wrap_token("Bob"));
}

#[test]
fn token_round_trip() {
    let c = Crypto::new(KEY);
    for text in ["", "Alice", "Nanjing univ", "label1", "with spaces & symbols!"] {
        let token = c.wrap_token(text);
        let back = c.unwrap_token(&token).unwrap();
        assert_eq!(back, text);
    }
}

#[test]
fn unwrap_rejects_malformed_tokens() {
    let c = Crypto::new(KEY);
    // No magic prefix.
    assert_eq!(c.unwrap_token("zzzz"), Err(Error::Tamper));
    assert_eq!(c.unwrap_token(""), Err(Error::Tamper));
    // Prefix but garbage after it.
    assert_eq!(c.unwrap_token("a!!!"), Err(Error::Tamper));
    // Prefix and valid alphabet, but not a ciphertext block.
    assert_eq!(c.unwrap_token("aABCD"), Err(Error::Tamper));
}

#[test]
fn codec_round_trip() {
    let c = Crypto::new(KEY);
    let data = vec![0u8, 1, 2, 250, 251, 252, 253, 254, 255];
    let encoded = c.encode(&data);
    let decoded = c.decode(&encoded).unwrap();
    assert_eq!(decoded, data);
    assert!(c.decode("!!not-in-alphabet!!").is_err());
}

#[test]
fn cipher_round_trip() {
    let c = Crypto::new(KEY);
    let plain = b"some plaintext bytes".to_vec();
    let cipher = c.encrypt(&plain);
    assert_ne!(cipher, plain);
    assert_eq!(cipher.len() % 16, 0);
    let back = c.decrypt(&cipher).unwrap();
    assert_eq!(back, plain);
}

#[test]
fn enc_query_tokenizes_content_but_not_variables() {
    let c = Crypto::new(KEY);
    let mut query = CypherQueryBuilder::new()
        .MATCH()
        .node(Node::new(Some(s("n")), strings(&["Student"]), props(&[("name", "Alice")])))
        .RETURN(vec![Item::Var(s("n")), Item::VarWithKey(s("n"), s("age"))])
        .build();
    c.enc_query(&mut query).unwrap();

    let node = query.node.as_ref().unwrap();
    assert_eq!(node.var_name, Some(s("n")));
    assert!(node.labels[0].starts_with('a'));
    assert_ne!(node.labels[0], "Student");
    assert!(node.properties[0].0.starts_with('a'));
    assert!(node.properties[0].1.starts_with('a'));
    match &query.return_list.as_ref().unwrap()[1] {
        Item::VarWithKey(v, k) => {
            assert_eq!(v, "n");
            assert!(k.starts_with('a'));
            assert_eq!(c.unwrap_token(k).unwrap(), "age");
        },
        _ => panic!("item kind changed"),
    }
}

#[test]
fn enc_query_rejects_structured_delete_entries() {
    let c = Crypto::new(KEY);
    let mut query = CypherQueryBuilder::new()
        .MATCH()
        .node(Node::new(Some(s("n")), Vec::new(), Vec::new()))
        .DELETE(vec![Item::VarWithKey(s("n"), s("k"))], false)
        .build();
    assert_eq!(c.enc_query(&mut query), Err(Error::InvalidQuery));
}

#[test]
fn hash_ignores_order_and_reserved_keys() {
    let h1 = content_hash(&strings(&["B", "A"]), &props(&[("k2", "v2"), ("k1", "v1")]));
    let h2 = content_hash(&strings(&["A", "B"]), &props(&[("k1", "v1"), ("k2", "v2")]));
    assert_eq!(h1, h2);
    assert_eq!(h1.len(), 64);

    // The identity and the digest itself never enter the digest.
    let h3 = content_hash(
        &strings(&["A", "B"]),
        &props(&[("k1", "v1"), ("uid", "u-123"), ("k2", "v2"), ("hash", "dead")]),
    );
    assert_eq!(h1, h3);

    // Content changes change the digest.
    let h4 = content_hash(&strings(&["A", "B"]), &props(&[("k1", "other"), ("k2", "v2")]));
    assert_ne!(h1, h4);
}

#[test]
fn inner_equality_ignores_order() {
    let a = Inner::new(strings(&["X", "Y"]), props(&[("k1", "v1"), ("k2", "v2")]));
    let b = Inner::new(strings(&["Y", "X"]), props(&[("k2", "v2"), ("k1", "v1")]));
    assert_eq!(a, b);

    // Multiset equality, not set equality: duplicates count.
    let c = Inner::new(strings(&["X", "X", "Y"]), props(&[("k1", "v1"), ("k2", "v2")]));
    assert_ne!(a, c);
    let d = Inner::new(strings(&["X", "Y"]), props(&[("k1", "v2"), ("k2", "v1")]));
    assert_ne!(a, d);
}

/// Builds the encrypted form of a stored entity the way a create writes it:
/// identity and digest attached as plaintext pairs, every label and every
/// user key and value tokenized.
fn stored_entity(c: &Crypto) -> Inner {
    let mut node = Node::new(None, strings(&["Student"]), props(&[("name", "Alice")]));
    encgraph::graph::add_uid_to_node(&mut node);
    encgraph::graph::add_hash_to_node(&mut node);
    let enc = |x: &String| c.wrap_token(x);
    Inner::new(
        node.labels.iter().map(enc).collect(),
        node.properties
            .iter()
            .map(|(k, v)| {
                if k == "uid" || k == "hash" {
                    (k.clone(), v.clone())
                } else {
                    (enc(k), enc(v))
                }
            })
            .collect(),
    )
}

#[test]
fn decrypt_and_verify_accepts_untampered_rows() {
    let c = Crypto::new(KEY);
    let stored = stored_entity(&c);
    // The backend sees the reserved pairs as plaintext beside the tokens.
    assert!(stored.get("uid").is_some());
    assert!(stored.get("hash").is_some());
    let mut row = Row::new_empty();
    row.push(stored);
    let plain = c.decrypt_and_verify(row).unwrap();
    let inner = &plain.inners()[0];
    assert_eq!(inner.labels(), &strings(&["Student"]));
    assert_eq!(inner.get("name"), Some(&s("Alice")));
    assert!(inner.get("uid").is_some());
    assert!(inner.get("hash").is_some());
}

#[test]
fn plaintext_reserved_pairs_pass_through() {
    // A row holding only the plaintext reserved pairs, with a digest that
    // matches its (empty) user content, is returned unchanged.
    let c = Crypto::new(KEY);
    let digest = content_hash(&Vec::new(), &Vec::new());
    let mut row = Row::new_empty();
    row.push(Inner::new(Vec::new(), props(&[("uid", "u-1"), ("hash", digest.as_str())])));
    let plain = c.decrypt_and_verify(row).unwrap();
    let inner = &plain.inners()[0];
    assert_eq!(inner.get("uid"), Some(&s("u-1")));
    assert_eq!(inner.get("hash"), Some(&digest));
    assert!(inner.labels().is_empty());
}

#[test]
fn tampered_value_is_detected() {
    let c = Crypto::new(KEY);
    let mut inner = stored_entity(&c);
    // Overwrite the stored name with the token of another value.
    let name_key = c.wrap_token("name");
    assert!(inner.update_property(&name_key, c.wrap_token("Mallory")));
    // The reserved pairs stay plaintext beside the altered token.
    assert!(inner.get("hash").is_some());
    let mut row = Row::new_empty();
    row.push(inner);
    assert_eq!(c.decrypt_and_verify(row).map(|_| ()), Err(Error::Tamper));
}

#[test]
fn tampered_label_is_detected() {
    let c = Crypto::new(KEY);
    let inner = stored_entity(&c);
    let mut labels = inner.labels().clone();
    labels[0] = c.wrap_token("Professor");
    let mut row = Row::new_empty();
    row.push(Inner::new(labels, inner.properties().clone()));
    assert_eq!(c.decrypt_and_verify(row).map(|_| ()), Err(Error::Tamper));
}

#[test]
fn tampered_key_is_detected() {
    let c = Crypto::new(KEY);
    let mut inner = stored_entity(&c);
    let name_key = c.wrap_token("name");
    assert!(inner.remove_property(&name_key));
    inner.add_property(c.wrap_token("nickname"), c.wrap_token("Alice"));
    let mut row = Row::new_empty();
    row.push(inner);
    assert_eq!(c.decrypt_and_verify(row).map(|_| ()), Err(Error::Tamper));
}

#[test]
fn tampered_hash_is_detected() {
    let c = Crypto::new(KEY);
    let mut inner = stored_entity(&c);
    assert!(inner.update_property("hash", s("0000")));
    let mut row = Row::new_empty();
    row.push(inner);
    assert_eq!(c.decrypt_and_verify(row).map(|_| ()), Err(Error::Tamper));
}

#[test]
fn missing_identity_is_detected() {
    let c = Crypto::new(KEY);
    let mut inner = stored_entity(&c);
    assert!(inner.remove_property("uid"));
    let mut row = Row::new_empty();
    row.push(inner);
    assert_eq!(c.decrypt_and_verify(row).map(|_| ()), Err(Error::Tamper));
}

#[test]
fn garbage_ciphertext_is_detected() {
    let c = Crypto::new(KEY);
    let mut inner = stored_entity(&c);
    inner.add_property(s("not-a-token"), s("zzz"));
    let mut row = Row::new_empty();
    row.push(inner);
    assert_eq!(c.decrypt_and_verify(row).map(|_| ()), Err(Error::Tamper));
}

use vstd::prelude::*;
use vstd::string::*;

use crate::cypher::{CypherQuery, QueryView};
use crate::error::Error;
use crate::item::{Item, ItemView};
use crate::node::{EntityView, Node};
use crate::strorder::str_eq;
use crate::util::{clone_prop_vec, clone_string_vec};

verus! {

/// The canonical variable name of the first node.
pub const NODE_VAR: &'static str = "n";

/// The canonical variable name of the relation.
pub const RELATION_VAR: &'static str = "r";

/// The canonical variable name of the next node.
pub const NEXT_NODE_VAR: &'static str = "m";

/// Whether a variable name is one of the three canonical names.
pub open spec fn canon_var_ok(v: Seq<char>) -> bool {
    v == NODE_VAR@ || v == RELATION_VAR@ || v == NEXT_NODE_VAR@
}

/// The rename table: each client-chosen entity name next to its canonical
/// replacement, in the fixed node/relation/next order.
pub open spec fn spec_canon_map(q: QueryView) -> Seq<(Seq<char>, Seq<char>)> {
    (match q.node {
        Some(e) => match e.var_name {
            Some(v) => seq![(v, NODE_VAR@)],
            None => Seq::empty(),
        },
        None => Seq::empty(),
    }) + (match q.relation {
        Some(e) => match e.var_name {
            Some(v) => seq![(v, RELATION_VAR@)],
            None => Seq::empty(),
        },
        None => Seq::empty(),
    }) + (match q.next_node {
        Some(e) => match e.var_name {
            Some(v) => seq![(v, NEXT_NODE_VAR@)],
            None => Seq::empty(),
        },
        None => Seq::empty(),
    })
}

/// An item with its variable name replaced.
pub open spec fn spec_replace_var(it: ItemView, nv: Seq<char>) -> ItemView {
    match it {
        ItemView::Var(_) => ItemView::Var(nv),
        ItemView::VarWithLabel(_, l) => ItemView::VarWithLabel(nv, l),
        ItemView::VarWithKey(_, k) => ItemView::VarWithKey(nv, k),
        ItemView::VarWithKeyValue(_, k, val) => ItemView::VarWithKeyValue(nv, k, val),
    }
}

/// Applies the first matching rename to an item, or leaves it unchanged.
pub open spec fn spec_apply_map(table: Seq<(Seq<char>, Seq<char>)>, it: ItemView) -> ItemView
    decreases table.len(),
{
    if table.len() == 0 {
        it
    } else if table[0].0 == it.var_of() {
        spec_replace_var(it, table[0].1)
    } else {
        spec_apply_map(table.drop_first(), it)
    }
}

pub open spec fn spec_apply_map_items(
    table: Seq<(Seq<char>, Seq<char>)>,
    items: Seq<ItemView>,
) -> Seq<ItemView> {
    items.map_values(|it: ItemView| spec_apply_map(table, it))
}

/// An entity with its variable name forced to a canonical one.
pub open spec fn spec_canon_entity(e: Option<EntityView>, nv: Seq<char>) -> Option<EntityView> {
    match e {
        Some(ev) => Some(EntityView { var_name: Some(nv), ..ev }),
        None => None,
    }
}

/// The canonicalized query: entity names forced to `n`, `r`, `m`, and every
/// item list rewritten through the rename table.
pub open spec fn spec_canon_query(q: QueryView) -> QueryView {
    let table = spec_canon_map(q);
    QueryView {
        node: spec_canon_entity(q.node, NODE_VAR@),
        relation: spec_canon_entity(q.relation, RELATION_VAR@),
        next_node: spec_canon_entity(q.next_node, NEXT_NODE_VAR@),
        use_match: q.use_match,
        use_create: q.use_create,
        return_list: match q.return_list {
            Some(items) => Some(spec_apply_map_items(table, items)),
            None => None,
        },
        set_list: match q.set_list {
            Some(items) => Some(spec_apply_map_items(table, items)),
            None => None,
        },
        remove_list: match q.remove_list {
            Some(items) => Some(spec_apply_map_items(table, items)),
            None => None,
        },
        delete_list: match q.delete_list {
            Some((items, detach)) => Some((spec_apply_map_items(table, items), detach)),
            None => None,
        },
        find_shortest_path: q.find_shortest_path,
    }
}

fn var_of_exec(it: &Item) -> (r: &String)
    ensures
        r@ == it@.var_of(),
{
    match it {
        Item::Var(v) => v,
        Item::VarWithLabel(v, _) => v,
        Item::VarWithKey(v, _) => v,
        Item::VarWithKeyValue(v, _, _) => v,
    }
}

fn replace_var_exec(it: &Item, nv: &String) -> (r: Item)
    ensures
        r@ == spec_replace_var(it@, nv@),
{
    match it {
        Item::Var(_) => Item::Var(nv.clone()),
        Item::VarWithLabel(_, l) => Item::VarWithLabel(nv.clone(), l.clone()),
        Item::VarWithKey(_, k) => Item::VarWithKey(nv.clone(), k.clone()),
        Item::VarWithKeyValue(_, k, val) => Item::VarWithKeyValue(
            nv.clone(),
            k.clone(),
            val.clone(),
        ),
    }
}

fn apply_map_exec(table: &Vec<(String, String)>, it: &Item) -> (r: Item)
    ensures
        r@ == spec_apply_map(table.deep_view(), it@),
{
    let ghost tv = table.deep_view();
    let mut i: usize = 0;
    proof {
        assert(tv.skip(0) =~= tv);
    }
    while i < table.len()
        invariant
            0 <= i <= table.len(),
            tv == table.deep_view(),
            spec_apply_map(tv, it@) == spec_apply_map(tv.skip(i as int), it@),
        decreases table.len() - i,
    {
        let var = var_of_exec(it);
        if str_eq(table[i].0.as_str(), var.as_str()) {
            proof {
                assert(tv.skip(i as int)[0] == tv[i as int]);
            }
            return replace_var_exec(it, &table[i].1);
        }
        proof {
            assert(tv.skip(i as int)[0] == tv[i as int]);
            assert(tv.skip(i as int).drop_first() =~= tv.skip(i + 1 as int));
        }
        i = i + 1;
    }
    proof {
        assert(tv.skip(table.len() as int).len() == 0);
    }
    it.clone()
}

fn apply_map_items(table: &Vec<(String, String)>, items: &Vec<Item>) -> (r: Vec<Item>)
    ensures
        r.deep_view() == spec_apply_map_items(table.deep_view(), items.deep_view()),
{
    let mut out: Vec<Item> = Vec::new();
    let mut i: usize = 0;
    while i < items.len()
        invariant
            0 <= i <= items.len(),
            out.deep_view() =~= spec_apply_map_items(
                table.deep_view(),
                items.deep_view().subrange(0, i as int),
            ),
        decreases items.len() - i,
    {
        let ghost prev = out.deep_view();
        out.push(apply_map_exec(table, &items[i]));
        proof {
            assert(out.deep_view() =~= prev.push(
                spec_apply_map(table.deep_view(), items.deep_view()[i as int]),
            ));
            assert(out.deep_view() =~= spec_apply_map_items(
                table.deep_view(),
                items.deep_view().subrange(0, i + 1 as int),
            ));
        }
        i = i + 1;
    }
    proof {
        assert(items.deep_view().subrange(0, items.len() as int) =~= items.deep_view());
    }
    out
}

fn canon_entity_exec(e: &Option<Node>, nv: &str) -> (r: Option<Node>)
    ensures
        r.deep_view() == spec_canon_entity(e.deep_view(), nv@),
{
    match e {
        Some(n) => Some(
            Node {
                var_name: Some(nv.to_owned()),
                labels: clone_string_vec(&n.labels),
                properties: clone_prop_vec(&n.properties),
            },
        ),
        None => None,
    }
}


/// A name sits in the rename table exactly when an entity declares it.
proof fn lemma_canon_map_names(q: QueryView, v: Seq<char>)
    ensures
        (exists|k: int|
            0 <= k < spec_canon_map(q).len() && (#[trigger] spec_canon_map(q)[k]).0 == v)
            <==> declared_var(q, v),
{
    let a: Seq<(Seq<char>, Seq<char>)> = match q.node {
        Some(e) => match e.var_name {
            Some(w) => seq![(w, NODE_VAR@)],
            None => Seq::empty(),
        },
        None => Seq::empty(),
    };
    let b: Seq<(Seq<char>, Seq<char>)> = match q.relation {
        Some(e) => match e.var_name {
            Some(w) => seq![(w, RELATION_VAR@)],
            None => Seq::empty(),
        },
        None => Seq::empty(),
    };
    let c: Seq<(Seq<char>, Seq<char>)> = match q.next_node {
        Some(e) => match e.var_name {
            Some(w) => seq![(w, NEXT_NODE_VAR@)],
            None => Seq::empty(),
        },
        None => Seq::empty(),
    };
    let table = spec_canon_map(q);
    assert(table == a + b + c);
    if declared_var(q, v) {
        lemma_canon_map_covers(q, v);
    }
    if exists|k: int| 0 <= k < table.len() && (#[trigger] table[k]).0 == v {
        let k = choose|k: int| 0 <= k < table.len() && (#[trigger] table[k]).0 == v;
        if k < a.len() {
            assert(table[k] == a[k]);
        } else if k < a.len() + b.len() {
            assert(table[k] == b[k - a.len()]);
        } else {
            assert(table[k] == c[k - a.len() - b.len()]);
        }
    }
}

/// Whether some table row renames the item's variable.
pub open spec fn named_in(table: Seq<(Seq<char>, Seq<char>)>, it: ItemView) -> bool {
    exists|k: int| 0 <= k < table.len() && (#[trigger] table[k]).0 == it.var_of()
}

/// Whether every item of the list names an entry of the rename table.
fn items_declared_in(table: &Vec<(String, String)>, items: &Vec<Item>) -> (r: bool)
    ensures
        r == (forall|i: int|
            0 <= i < items.deep_view().len() ==> named_in(
                table.deep_view(),
                #[trigger] items.deep_view()[i],
            )),
{
    let mut i: usize = 0;
    while i < items.len()
        invariant
            0 <= i <= items.len(),
            forall|j: int|
                0 <= j < i ==> named_in(table.deep_view(), #[trigger] items.deep_view()[j]),
        decreases items.len() - i,
    {
        let var = var_of_exec(&items[i]);
        let mut found = false;
        let mut k: usize = 0;
        while k < table.len()
            invariant
                0 <= k <= table.len(),
                i < items.len(),
                var@ == items.deep_view()[i as int].var_of(),
                found ==> named_in(table.deep_view(), items.deep_view()[i as int]),
                !found ==> forall|x: int|
                    0 <= x < k ==> (#[trigger] table.deep_view()[x]).0
                        != items.deep_view()[i as int].var_of(),
            decreases table.len() - k,
        {
            if !found && str_eq(table[k].0.as_str(), var.as_str()) {
                found = true;
                proof {
                    let iv = items.deep_view()[i as int];
                    assert(table.deep_view()[k as int].0 == iv.var_of());
                    assert(named_in(table.deep_view(), iv));
                }
            }
            k = k + 1;
        }
        if !found {
            proof {
                let iv = items.deep_view()[i as int];
                assert(!named_in(table.deep_view(), iv));
            }
            return false;
        }
        i = i + 1;
    }
    true
}

/// Rewrites the query's variable names to the three fixed internal names:
/// `n` for the node, `r` for the relation, `m` for the next node. All item
/// lists are rewritten through the same rename table, so references by the
/// client-chosen names follow their entities; an item that references no
/// declared entity name is rejected, so no client-chosen name can survive
/// into the text sent to the backend.
pub fn confuse_var_name(query: &mut CypherQuery) -> (r: Result<(), Error>)
    ensures
        match r {
            Ok(_) => query_items_declared(old(query)@) && final(query)@ == spec_canon_query(
                old(query)@,
            ) && query_vars_canonical(final(query)@),
            Err(e) => e == Error::InvalidQuery && !query_items_declared(old(query)@)
                && final(query)@ == old(query)@,
        },
{
    let mut table: Vec<(String, String)> = Vec::new();
    match &query.node {
        Some(n) => match &n.var_name {
            Some(v) => {
                table.push((v.clone(), NODE_VAR.to_owned()));
            },
            None => (),
        },
        None => (),
    }
    match &query.relation {
        Some(n) => match &n.var_name {
            Some(v) => {
                table.push((v.clone(), RELATION_VAR.to_owned()));
            },
            None => (),
        },
        None => (),
    }
    match &query.next_node {
        Some(n) => match &n.var_name {
            Some(v) => {
                table.push((v.clone(), NEXT_NODE_VAR.to_owned()));
            },
            None => (),
        },
        None => (),
    }
    proof {
        assert(table.deep_view() =~= spec_canon_map(old(query)@));
    }

    proof {
        assert forall|it: ItemView| #[trigger] named_in(table.deep_view(), it) == declared_var(
            old(query)@,
            it.var_of(),
        ) by {
            lemma_canon_map_names(old(query)@, it.var_of());
        }
    }
    let mut all_declared = true;
    match &query.return_list {
        Some(items) => {
            if !items_declared_in(&table, items) {
                all_declared = false;
            }
        },
        None => (),
    }
    match &query.set_list {
        Some(items) => {
            if !items_declared_in(&table, items) {
                all_declared = false;
            }
        },
        None => (),
    }
    match &query.remove_list {
        Some(items) => {
            if !items_declared_in(&table, items) {
                all_declared = false;
            }
        },
        None => (),
    }
    match &query.delete_list {
        Some((items, _)) => {
            if !items_declared_in(&table, items) {
                all_declared = false;
            }
        },
        None => (),
    }
    if !all_declared {
        proof {
            assert(!query_items_declared(old(query)@));
        }
        return Err(Error::InvalidQuery);
    }
    proof {
        assert(query_items_declared(old(query)@));
    }

    query.node = canon_entity_exec(&query.node, NODE_VAR);
    query.relation = canon_entity_exec(&query.relation, RELATION_VAR);
    query.next_node = canon_entity_exec(&query.next_node, NEXT_NODE_VAR);

    query.return_list = match &query.return_list {
        Some(items) => Some(apply_map_items(&table, items)),
        None => None,
    };
    query.set_list = match &query.set_list {
        Some(items) => Some(apply_map_items(&table, items)),
        None => None,
    };
    query.remove_list = match &query.remove_list {
        Some(items) => Some(apply_map_items(&table, items)),
        None => None,
    };
    query.delete_list = match &query.delete_list {
        Some((items, detach)) => Some((apply_map_items(&table, items), *detach)),
        None => None,
    };
    proof {
        assert(query@ =~= spec_canon_query(old(query)@));
        lemma_canon_opacity(old(query)@);
    }
    Ok(())
}

/// Whether `v` is the declared variable name of one of the query's entities.
pub open spec fn declared_var(q: QueryView, v: Seq<char>) -> bool {
    (q.node is Some && q.node->Some_0.var_name == Some(v)) || (q.relation is Some
        && q.relation->Some_0.var_name == Some(v)) || (q.next_node is Some
        && q.next_node->Some_0.var_name == Some(v))
}

/// Whether every item of every list references a declared entity name.
pub open spec fn query_items_declared(q: QueryView) -> bool {
    &&& match q.return_list {
        Some(items) => forall|i: int|
            0 <= i < items.len() ==> declared_var(q, (#[trigger] items[i]).var_of()),
        None => true,
    }
    &&& match q.set_list {
        Some(items) => forall|i: int|
            0 <= i < items.len() ==> declared_var(q, (#[trigger] items[i]).var_of()),
        None => true,
    }
    &&& match q.remove_list {
        Some(items) => forall|i: int|
            0 <= i < items.len() ==> declared_var(q, (#[trigger] items[i]).var_of()),
        None => true,
    }
    &&& match q.delete_list {
        Some((items, _)) => forall|i: int|
            0 <= i < items.len() ==> declared_var(q, (#[trigger] items[i]).var_of()),
        None => true,
    }
}

/// Whether every variable position of the query holds a canonical name.
/// The renderer takes variable names only from these positions, so a query
/// satisfying this emits no other name to the backend.
pub open spec fn query_vars_canonical(q: QueryView) -> bool {
    &&& q.node is Some ==> q.node->Some_0.var_name == Some(NODE_VAR@)
    &&& q.relation is Some ==> q.relation->Some_0.var_name == Some(RELATION_VAR@)
    &&& q.next_node is Some ==> q.next_node->Some_0.var_name == Some(NEXT_NODE_VAR@)
    &&& match q.return_list {
        Some(items) => forall|i: int|
            0 <= i < items.len() ==> canon_var_ok((#[trigger] items[i]).var_of()),
        None => true,
    }
    &&& match q.set_list {
        Some(items) => forall|i: int|
            0 <= i < items.len() ==> canon_var_ok((#[trigger] items[i]).var_of()),
        None => true,
    }
    &&& match q.remove_list {
        Some(items) => forall|i: int|
            0 <= i < items.len() ==> canon_var_ok((#[trigger] items[i]).var_of()),
        None => true,
    }
    &&& match q.delete_list {
        Some((items, _)) => forall|i: int|
            0 <= i < items.len() ==> canon_var_ok((#[trigger] items[i]).var_of()),
        None => true,
    }
}

proof fn lemma_apply_map_canon(table: Seq<(Seq<char>, Seq<char>)>, it: ItemView)
    requires
        forall|k: int| 0 <= k < table.len() ==> canon_var_ok((#[trigger] table[k]).1),
        exists|k: int| 0 <= k < table.len() && (#[trigger] table[k]).0 == it.var_of(),
    ensures
        canon_var_ok(spec_apply_map(table, it).var_of()),
    decreases table.len(),
{
    if table[0].0 == it.var_of() {
        assert(spec_apply_map(table, it) == spec_replace_var(it, table[0].1));
    } else {
        let k = choose|k: int| 0 <= k < table.len() && (#[trigger] table[k]).0 == it.var_of();
        assert(k >= 1);
        assert(table.drop_first()[k - 1] == table[k]);
        assert(forall|j: int|
            0 <= j < table.drop_first().len() ==> #[trigger] table.drop_first()[j] == table[j + 1]);
        lemma_apply_map_canon(table.drop_first(), it);
    }
}

/// A declared name always has a row in the rename table, and every row
/// renames to a canonical name.
proof fn lemma_canon_map_covers(q: QueryView, v: Seq<char>)
    requires
        declared_var(q, v),
    ensures
        exists|k: int|
            0 <= k < spec_canon_map(q).len() && (#[trigger] spec_canon_map(q)[k]).0 == v,
        forall|k: int|
            0 <= k < spec_canon_map(q).len() ==> canon_var_ok((#[trigger] spec_canon_map(q)[k]).1),
{
    let a: Seq<(Seq<char>, Seq<char>)> = match q.node {
        Some(e) => match e.var_name {
            Some(w) => seq![(w, NODE_VAR@)],
            None => Seq::empty(),
        },
        None => Seq::empty(),
    };
    let b: Seq<(Seq<char>, Seq<char>)> = match q.relation {
        Some(e) => match e.var_name {
            Some(w) => seq![(w, RELATION_VAR@)],
            None => Seq::empty(),
        },
        None => Seq::empty(),
    };
    let c: Seq<(Seq<char>, Seq<char>)> = match q.next_node {
        Some(e) => match e.var_name {
            Some(w) => seq![(w, NEXT_NODE_VAR@)],
            None => Seq::empty(),
        },
        None => Seq::empty(),
    };
    let table = spec_canon_map(q);
    assert(table == a + b + c);
    assert forall|k: int| 0 <= k < table.len() implies canon_var_ok((#[trigger] table[k]).1) by {
        if k < a.len() {
            assert(table[k] == a[k]);
        } else if k < a.len() + b.len() {
            assert(table[k] == b[k - a.len()]);
        } else {
            assert(table[k] == c[k - a.len() - b.len()]);
        }
    }
    if q.node is Some && q.node->Some_0.var_name == Some(v) {
        assert(table[0] == a[0]);
        assert(table[0].0 == v);
    } else if q.relation is Some && q.relation->Some_0.var_name == Some(v) {
        let k = a.len() as int;
        assert(table[k] == b[0]);
        assert(table[k].0 == v);
    } else {
        let k = a.len() + b.len() as int;
        assert(table[k] == c[0]);
        assert(table[k].0 == v);
    }
}

/// Variable opacity: once a query whose item lists reference only declared
/// entity names is canonicalized, every variable position holds one of the
/// three fixed names `n`, `r`, `m`; the renderer emits variable names from
/// no other place, so the backend sees no client-chosen name.
pub proof fn lemma_canon_opacity(q: QueryView)
    requires
        query_items_declared(q),
    ensures
        query_vars_canonical(spec_canon_query(q)),
{
    let table = spec_canon_map(q);
    let cq = spec_canon_query(q);
    assert forall|k: int| 0 <= k < table.len() implies canon_var_ok((#[trigger] table[k]).1) by {
        if q.node is Some && q.node->Some_0.var_name is Some {
            lemma_canon_map_covers(q, q.node->Some_0.var_name->Some_0);
        } else if q.relation is Some && q.relation->Some_0.var_name is Some {
            lemma_canon_map_covers(q, q.relation->Some_0.var_name->Some_0);
        } else if q.next_node is Some && q.next_node->Some_0.var_name is Some {
            lemma_canon_map_covers(q, q.next_node->Some_0.var_name->Some_0);
        } else {
            assert(table.len() == 0);
        }
    }
    match q.return_list {
        Some(items) => {
            assert forall|i: int| 0 <= i < items.len() implies canon_var_ok(
                spec_apply_map_items(table, items)[i].var_of(),
            ) by {
                lemma_canon_map_covers(q, items[i].var_of());
                lemma_apply_map_canon(table, items[i]);
            }
        },
        None => (),
    }
    match q.set_list {
        Some(items) => {
            assert forall|i: int| 0 <= i < items.len() implies canon_var_ok(
                spec_apply_map_items(table, items)[i].var_of(),
            ) by {
                lemma_canon_map_covers(q, items[i].var_of());
                lemma_apply_map_canon(table, items[i]);
            }
        },
        None => (),
    }
    match q.remove_list {
        Some(items) => {
            assert forall|i: int| 0 <= i < items.len() implies canon_var_ok(
                spec_apply_map_items(table, items)[i].var_of(),
            ) by {
                lemma_canon_map_covers(q, items[i].var_of());
                lemma_apply_map_canon(table, items[i]);
            }
        },
        None => (),
    }
    match q.delete_list {
        Some((items, _)) => {
            assert forall|i: int| 0 <= i < items.len() implies canon_var_ok(
                spec_apply_map_items(table, items)[i].var_of(),
            ) by {
                lemma_canon_map_covers(q, items[i].var_of());
                lemma_apply_map_canon(table, items[i]);
            }
        },
        None => (),
    }
}

} // verus!

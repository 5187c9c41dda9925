use vstd::prelude::*;
use vstd::string::*;

use crate::canon::{NEXT_NODE_VAR, NODE_VAR, RELATION_VAR};
use crate::crypto::{spec_delete_list_plain, spec_enc_query, Crypto};
use crate::cypher::{clone_opt_item_vec, CypherQuery, QueryView};
use crate::digest::{
    content_hash, hashed_props, lemma_hash_order_insensitive, no_reserved_keys,
    spec_content_hash, HASH_KEY, UID_KEY,
};
use crate::error::Error;
use crate::item::{Item, ItemView};
use crate::node::{EntityView, Node, Relation};
use crate::rows::{Inner, InnerView, Row, Rows};
use crate::strorder::{
    lemma_pair_order_total, lemma_string_order_total, pair_order, sort_props, sort_strings,
    string_order,
};

verus! {

/// Relies on uuid::Uuid::new_v4 and its hyphenated rendering: the result is
/// random, and its textual form always holds 36 characters.
#[verifier::external_body]
fn fresh_uuid() -> (r: String)
    ensures
        r@.len() == 36,
{
    uuid::Uuid::new_v4().to_string()
}

/// An entity with an identity property appended.
pub open spec fn spec_add_uid(e: EntityView, u: Seq<char>) -> EntityView {
    EntityView { properties: e.properties.push((UID_KEY@, u)), ..e }
}

/// An entity with labels and properties canonicalized in place and its
/// integrity digest appended as the last property.
pub open spec fn spec_with_hash(e: EntityView) -> EntityView {
    EntityView {
        var_name: e.var_name,
        labels: e.labels.sort_by(string_order()),
        properties: e.properties.sort_by(pair_order()).push(
            (HASH_KEY@, spec_content_hash(e.labels, e.properties)),
        ),
    }
}

/// Appends a fresh random identity to a node and hands it back.
pub fn add_uid_to_node(node: &mut Node) -> (uid: String)
    ensures
        final(node)@ == spec_add_uid(old(node)@, uid@),
        uid@.len() == 36,
{
    let uid = fresh_uuid();
    node.add_property(UID_KEY.to_owned(), uid.clone());
    uid
}

/// Appends the composite identity of a relation: source uid, then target uid.
pub fn add_uid_to_relationship(relation: &mut Relation, from_uid: &String, to_uid: &String)
    ensures
        final(relation)@ == spec_add_uid(old(relation)@, from_uid@ + to_uid@),
{
    let mut uid = from_uid.clone();
    uid.append(to_uid.as_str());
    relation.add_property(UID_KEY.to_owned(), uid);
}

/// Sorting labels and properties leaves the digest unchanged.
proof fn lemma_hash_sorted(labels: Seq<Seq<char>>, props: Seq<(Seq<char>, Seq<char>)>)
    ensures
        spec_content_hash(labels.sort_by(string_order()), props.sort_by(pair_order()))
            == spec_content_hash(labels, props),
{
    lemma_string_order_total();
    lemma_pair_order_total();
    labels.lemma_sort_by_ensures(string_order());
    props.lemma_sort_by_ensures(pair_order());
    lemma_hash_order_insensitive(labels.sort_by(string_order()), props.sort_by(pair_order()), labels, props);
}

/// Canonicalizes a node's labels and properties and appends its digest.
pub fn add_hash_to_node(node: &mut Node)
    ensures
        final(node)@ == spec_with_hash(old(node)@),
{
    node.labels = sort_strings(&node.labels);
    node.properties = sort_props(&node.properties);
    let h = content_hash(&node.labels, &node.properties);
    proof {
        lemma_hash_sorted(old(node)@.labels, old(node)@.properties);
    }
    node.add_property(HASH_KEY.to_owned(), h);
}

/// Canonicalizes a relation's labels and properties and appends its digest.
pub fn add_hash_to_relationship(relation: &mut Relation)
    ensures
        final(relation)@ == spec_with_hash(old(relation)@),
{
    add_hash_to_node(relation);
}

/// Canonicalizes an inner in place and hands back its recomputed digest.
pub fn get_inner_hash(inner: &mut Inner) -> (h: String)
    ensures
        final(inner)@.labels == old(inner)@.labels.sort_by(string_order()),
        final(inner)@.properties == old(inner)@.properties.sort_by(pair_order()),
        h@ == spec_content_hash(old(inner)@.labels, old(inner)@.properties),
{
    inner.labels = sort_strings(inner.labels());
    inner.properties = sort_props(inner.properties());
    proof {
        lemma_hash_sorted(old(inner)@.labels, old(inner)@.properties);
    }
    content_hash(&inner.labels, &inner.properties)
}

/// Appends the first row of `result` to `res`, if there is one.
pub fn push_first_row(res: &mut Rows, result: &Rows)
    ensures
        final(res)@ == if result@.len() > 0 {
            old(res)@.push(result@[0])
        } else {
            old(res)@
        },
{
    if !result.is_empty() {
        res.push(result.rows()[0].clone());
    }
}

/// The variable names a RETURN list asks for, in order; only bare variable
/// references are taken.
pub open spec fn spec_return_vars(l: Option<Seq<ItemView>>) -> Seq<Seq<char>>
    decreases (match l {
        Some(items) => items.len(),
        None => 0,
    }),
{
    match l {
        None => Seq::empty(),
        Some(items) => if items.len() == 0 {
            Seq::empty()
        } else {
            spec_return_vars(Some(items.drop_last())) + (match items.last() {
                ItemView::Var(v) => seq![v],
                _ => Seq::empty(),
            })
        },
    }
}

/// Collects the bare variable names of the query's RETURN list.
pub fn get_return_vars(query: &CypherQuery) -> (r: Vec<String>)
    ensures
        r.deep_view() == spec_return_vars(query@.return_list),
{
    let mut vars: Vec<String> = Vec::new();
    match &query.return_list {
        None => vars,
        Some(items) => {
            let mut i: usize = 0;
            while i < items.len()
                invariant
                    0 <= i <= items.len(),
                    vars.deep_view() =~= spec_return_vars(
                        Some(items.deep_view().subrange(0, i as int)),
                    ),
                decreases items.len() - i,
            {
                let ghost prev = vars.deep_view();
                match &items[i] {
                    Item::Var(v) => {
                        vars.push(v.clone());
                        proof {
                            assert(vars.deep_view() =~= prev.push(
                                items.deep_view()[i as int]->Var_0,
                            ));
                        }
                    },
                    _ => (),
                }
                proof {
                    let views = items.deep_view();
                    assert(views.subrange(0, i + 1 as int).drop_last() =~= views.subrange(
                        0,
                        i as int,
                    ));
                    assert(views.subrange(0, i + 1 as int).last() == views[i as int]);
                }
                i = i + 1;
            }
            proof {
                assert(items.deep_view().subrange(0, items.len() as int) =~= items.deep_view());
            }
            vars
        },
    }
}

/// An inner with the reserved `uid` and `hash` properties removed.
pub open spec fn spec_strip_inner(iv: InnerView) -> InnerView {
    InnerView { labels: iv.labels, properties: hashed_props(iv.properties) }
}

/// Removes the reserved `uid` and `hash` properties from every entity of a
/// result, so that clients see only user content.
pub fn strip_reserved(rows: &Rows) -> (r: Rows)
    ensures
        r@.len() == rows@.len(),
        forall|i: int, j: int|
            0 <= i < rows@.len() && 0 <= j < rows@[i].len() ==> (#[trigger] r@[i][j])
                == spec_strip_inner(rows@[i][j]),
        forall|i: int| 0 <= i < rows@.len() ==> (#[trigger] r@[i]).len() == rows@[i].len(),
{
    let mut out = Rows::new_empty();
    let src = rows.rows();
    let mut i: usize = 0;
    while i < src.len()
        invariant
            0 <= i <= src.len(),
            src.deep_view() == rows@,
            out@.len() == i,
            forall|a: int, b: int|
                0 <= a < i && 0 <= b < rows@[a].len() ==> (#[trigger] out@[a][b])
                    == spec_strip_inner(rows@[a][b]),
            forall|a: int| 0 <= a < i ==> (#[trigger] out@[a]).len() == rows@[a].len(),
        decreases src.len() - i,
    {
        let row = &src[i];
        let inners = row.inners();
        let mut new_row = Row::new_empty();
        let mut j: usize = 0;
        while j < inners.len()
            invariant
                0 <= j <= inners.len(),
                inners.deep_view() == rows@[i as int],
                i < src.len(),
                src.deep_view() == rows@,
                new_row@.len() == j,
                forall|b: int|
                    0 <= b < j ==> (#[trigger] new_row@[b]) == spec_strip_inner(
                        rows@[i as int][b],
                    ),
            decreases inners.len() - j,
        {
            let inner = &inners[j];
            let labels = crate::util::clone_string_vec(inner.labels());
            let mut props: Vec<(String, String)> = Vec::new();
            let source = inner.properties();
            let ghost keep = crate::digest::hash_keep();
            let mut k: usize = 0;
            proof {
                reveal(Seq::filter);
                assert(source.deep_view().subrange(0, 0).filter(keep) =~= Seq::empty());
                assert(props.deep_view() =~= Seq::empty());
            }
            while k < source.len()
                invariant
                    0 <= k <= source.len(),
                    keep == crate::digest::hash_keep(),
                    props.deep_view() == source.deep_view().subrange(0, k as int).filter(keep),
                decreases source.len() - k,
            {
                let p = &source[k];
                let reserved = crate::strorder::str_eq(p.0.as_str(), UID_KEY)
                    || crate::strorder::str_eq(p.0.as_str(), HASH_KEY);
                let ghost prev = props.deep_view();
                if !reserved {
                    props.push((p.0.clone(), p.1.clone()));
                    proof {
                        assert(props.deep_view() =~= prev.push(source.deep_view()[k as int]));
                    }
                }
                proof {
                    reveal(Seq::filter);
                    let sub = source.deep_view().subrange(0, k as int);
                    let ext = source.deep_view().subrange(0, k + 1 as int);
                    assert(ext.drop_last() =~= sub);
                    assert(ext.last() == source.deep_view()[k as int]);
                    if reserved {
                        assert(ext.filter(keep) =~= sub.filter(keep));
                    } else {
                        assert(ext.filter(keep) =~= sub.filter(keep).push(
                            source.deep_view()[k as int],
                        ));
                    }
                }
                k = k + 1;
            }
            proof {
                assert(source.deep_view().subrange(0, source.len() as int)
                    =~= source.deep_view());
            }
            new_row.push(Inner::new(labels, props));
            j = j + 1;
        }
        out.push(new_row);
        i = i + 1;
    }
    out
}



/// Whether any property pair uses one of the reserved bookkeeping keys.
fn has_reserved_key(props: &Vec<(String, String)>) -> (r: bool)
    ensures
        r == !no_reserved_keys(props.deep_view()),
{
    let mut i: usize = 0;
    while i < props.len()
        invariant
            0 <= i <= props.len(),
            forall|j: int|
                0 <= j < i ==> !crate::digest::is_reserved_key(
                    (#[trigger] props.deep_view()[j]).0,
                ),
        decreases props.len() - i,
    {
        let p = &props[i];
        if crate::strorder::str_eq(p.0.as_str(), UID_KEY) || crate::strorder::str_eq(
            p.0.as_str(),
            HASH_KEY,
        ) {
            proof {
                assert(crate::digest::is_reserved_key(props.deep_view()[i as int].0));
            }
            return true;
        }
        i = i + 1;
    }
    false
}

/// The inner a canonical variable name addresses: `n` the first, `r` the
/// relation, `m` the next node.
pub open spec fn spec_target_index(v: Seq<char>) -> Option<int> {
    if v == NODE_VAR@ {
        Some(0int)
    } else if v == RELATION_VAR@ {
        Some(1int)
    } else if v == NEXT_NODE_VAR@ {
        Some(2int)
    } else {
        None
    }
}

/// One SET entry applied to the addressed inner: a key/value entry updates
/// or adds the property, a label entry appends the label. Anything else,
/// an unknown variable, a missing inner, or a reserved bookkeeping key is
/// an error.
pub open spec fn spec_apply_set_item(inners: Seq<InnerView>, it: ItemView) -> Option<
    Seq<InnerView>,
> {
    match it {
        ItemView::VarWithKeyValue(v, k, val) => if crate::digest::is_reserved_key(k) {
            None
        } else {
            match spec_target_index(v) {
                Some(idx) => if idx < inners.len() {
                    Some(
                        inners.update(
                            idx,
                            InnerView {
                                properties: crate::rows::spec_update_or_add_prop(
                                    inners[idx].properties,
                                    k,
                                    val,
                                ),
                                ..inners[idx]
                            },
                        ),
                    )
                } else {
                    None
                },
                None => None,
            }
        },
        ItemView::VarWithLabel(v, l) => match spec_target_index(v) {
            Some(idx) => if idx < inners.len() {
                Some(
                    inners.update(
                        idx,
                        InnerView { labels: inners[idx].labels.push(l), ..inners[idx] },
                    ),
                )
            } else {
                None
            },
            None => None,
        },
        _ => None,
    }
}

/// A SET list applied left to right.
pub open spec fn spec_apply_set(inners: Seq<InnerView>, items: Seq<ItemView>) -> Option<
    Seq<InnerView>,
>
    decreases items.len(),
{
    if items.len() == 0 {
        Some(inners)
    } else {
        match spec_apply_set(inners, items.drop_last()) {
            None => None,
            Some(cur) => spec_apply_set_item(cur, items.last()),
        }
    }
}

/// One REMOVE entry applied to the addressed inner: a key entry drops the
/// first property with that key, a label entry drops the first matching
/// label. A relation's label may not be removed, and the reserved
/// bookkeeping keys may not be touched.
pub open spec fn spec_apply_remove_item(inners: Seq<InnerView>, it: ItemView) -> Option<
    Seq<InnerView>,
> {
    match it {
        ItemView::VarWithKey(v, k) => if crate::digest::is_reserved_key(k) {
            None
        } else {
            match spec_target_index(v) {
                Some(idx) => if idx < inners.len() {
                    Some(
                        inners.update(
                            idx,
                            InnerView {
                                properties: crate::rows::spec_remove_prop(
                                    inners[idx].properties,
                                    k,
                                ).1,
                                ..inners[idx]
                            },
                        ),
                    )
                } else {
                    None
                },
                None => None,
            }
        },
        ItemView::VarWithLabel(v, l) => if v == RELATION_VAR@ {
            None
        } else {
            match spec_target_index(v) {
                Some(idx) => if idx < inners.len() {
                    Some(
                        inners.update(
                            idx,
                            InnerView {
                                labels: crate::rows::spec_remove_label(inners[idx].labels, l).1,
                                ..inners[idx]
                            },
                        ),
                    )
                } else {
                    None
                },
                None => None,
            }
        },
        _ => None,
    }
}

/// A REMOVE list applied left to right.
pub open spec fn spec_apply_remove(inners: Seq<InnerView>, items: Seq<ItemView>) -> Option<
    Seq<InnerView>,
>
    decreases items.len(),
{
    if items.len() == 0 {
        Some(inners)
    } else {
        match spec_apply_remove(inners, items.drop_last()) {
            None => None,
            Some(cur) => spec_apply_remove_item(cur, items.last()),
        }
    }
}

proof fn lemma_apply_set_none_sticks(inners: Seq<InnerView>, items: Seq<ItemView>, k: int)
    requires
        0 <= k <= items.len(),
        spec_apply_set(inners, items.subrange(0, k)) is None,
    ensures
        spec_apply_set(inners, items) is None,
    decreases items.len() - k,
{
    if k == items.len() {
        assert(items.subrange(0, k) =~= items);
    } else {
        assert(items.subrange(0, k + 1).drop_last() =~= items.subrange(0, k));
        lemma_apply_set_none_sticks(inners, items, k + 1);
    }
}

proof fn lemma_apply_remove_none_sticks(inners: Seq<InnerView>, items: Seq<ItemView>, k: int)
    requires
        0 <= k <= items.len(),
        spec_apply_remove(inners, items.subrange(0, k)) is None,
    ensures
        spec_apply_remove(inners, items) is None,
    decreases items.len() - k,
{
    if k == items.len() {
        assert(items.subrange(0, k) =~= items);
    } else {
        assert(items.subrange(0, k + 1).drop_last() =~= items.subrange(0, k));
        lemma_apply_remove_none_sticks(inners, items, k + 1);
    }
}

fn take_inner(inners: &mut Vec<Inner>, idx: usize) -> (x: Inner)
    requires
        idx < old(inners).len(),
    ensures
        x@ == old(inners).deep_view()[idx as int],
        final(inners).deep_view() == old(inners).deep_view().remove(idx as int),
        final(inners).len() == old(inners).len() - 1,
{
    let ghost prev = inners.deep_view();
    let x = inners.remove(idx);
    proof {
        assert(inners.deep_view() =~= prev.remove(idx as int));
    }
    x
}

fn put_inner(inners: &mut Vec<Inner>, idx: usize, x: Inner)
    requires
        idx <= old(inners).len(),
    ensures
        final(inners).deep_view() == old(inners).deep_view().insert(idx as int, x@),
        final(inners).len() == old(inners).len() + 1,
{
    let ghost prev = inners.deep_view();
    inners.insert(idx, x);
    proof {
        assert(inners.deep_view() =~= prev.insert(idx as int, x@));
    }
}

/// The exec index for a canonical variable name.
fn target_index(v: &str) -> (r: Option<usize>)
    ensures
        match r {
            Some(i) => spec_target_index(v@) == Some(i as int),
            None => spec_target_index(v@) is None,
        },
{
    if crate::strorder::str_eq(v, NODE_VAR) {
        Some(0)
    } else if crate::strorder::str_eq(v, RELATION_VAR) {
        Some(1)
    } else if crate::strorder::str_eq(v, NEXT_NODE_VAR) {
        Some(2)
    } else {
        None
    }
}


/// The views of an optional item list; absent means empty.
pub open spec fn opt_item_views(l: Option<&Vec<Item>>) -> Seq<ItemView> {
    match l {
        Some(v) => v.deep_view(),
        None => Seq::empty(),
    }
}

/// Applies a SET list to the matched inners, in place.
#[verifier::rlimit(60)]
pub fn update_inners_by_set(inners: &mut Vec<Inner>, set_list: Option<&Vec<Item>>) -> (r: Result<(), Error>)
    ensures
        match r {
            Ok(_) => spec_apply_set(old(inners).deep_view(), opt_item_views(set_list)) == Some(
                final(inners).deep_view(),
            ),
            Err(e) => e == Error::InvalidQuery && (spec_apply_set(
                old(inners).deep_view(),
                opt_item_views(set_list),
            ) is None),
        },
{
    let updates = match set_list {
        None => {
            return Ok(());
        },
        Some(l) => l,
    };
    let ghost items = updates.deep_view();
    let ghost orig = inners.deep_view();
    let mut i: usize = 0;
    proof {
        assert(items.subrange(0, 0) =~= Seq::<ItemView>::empty());
    }
    while i < updates.len()
        invariant
            0 <= i <= updates.len(),
            items == updates.deep_view(),
            opt_item_views(set_list) == items,
            orig == old(inners).deep_view(),
            spec_apply_set(orig, items.subrange(0, i as int)) == Some(inners.deep_view()),
        decreases updates.len() - i,
    {
        let ghost cur = inners.deep_view();
        let ghost step = items.subrange(0, i + 1 as int);
        proof {
            assert(step.drop_last() =~= items.subrange(0, i as int));
            assert(step.last() == items[i as int]);
            assert(cur.len() == inners.len());
        }
        match &updates[i] {
            Item::VarWithKeyValue(v, k, val) => {
                if crate::strorder::str_eq(k.as_str(), UID_KEY) || crate::strorder::str_eq(
                    k.as_str(),
                    HASH_KEY,
                ) {
                    proof {
                        assert(spec_apply_set_item(cur, items[i as int]) is None);
                        lemma_apply_set_none_sticks(orig, items, i + 1 as int);
                    }
                    return Err(Error::InvalidQuery);
                }
                match target_index(v.as_str()) {
                    Some(idx) => {
                        if idx < inners.len() {
                            let mut x = take_inner(inners, idx);
                            x.update_or_add_property(k.as_str(), val.clone());
                            put_inner(inners, idx, x);
                            proof {
                                assert(inners.deep_view() =~= cur.update(
                                    idx as int,
                                    InnerView {
                                        properties: crate::rows::spec_update_or_add_prop(
                                            cur[idx as int].properties,
                                            k@,
                                            val@,
                                        ),
                                        ..cur[idx as int]
                                    },
                                ));
                            }
                        } else {
                            proof {
                                assert(spec_apply_set_item(cur, items[i as int]) is None);
                                lemma_apply_set_none_sticks(orig, items, i + 1 as int);
                            }
                            return Err(Error::InvalidQuery);
                        }
                    },
                    None => {
                        proof {
                            assert(spec_apply_set_item(cur, items[i as int]) is None);
                            lemma_apply_set_none_sticks(orig, items, i + 1 as int);
                        }
                        return Err(Error::InvalidQuery);
                    },
                }
            },
            Item::VarWithLabel(v, l) => {
                match target_index(v.as_str()) {
                    Some(idx) => {
                        if idx < inners.len() {
                            let mut x = take_inner(inners, idx);
                            x.add_label(l.clone());
                            put_inner(inners, idx, x);
                            proof {
                                assert(inners.deep_view() =~= cur.update(
                                    idx as int,
                                    InnerView {
                                        labels: cur[idx as int].labels.push(l@),
                                        ..cur[idx as int]
                                    },
                                ));
                            }
                        } else {
                            proof {
                                assert(spec_apply_set_item(cur, items[i as int]) is None);
                                lemma_apply_set_none_sticks(orig, items, i + 1 as int);
                            }
                            return Err(Error::InvalidQuery);
                        }
                    },
                    None => {
                        proof {
                            assert(spec_apply_set_item(cur, items[i as int]) is None);
                            lemma_apply_set_none_sticks(orig, items, i + 1 as int);
                        }
                        return Err(Error::InvalidQuery);
                    },
                }
            },
            _ => {
                proof {
                    assert(spec_apply_set_item(cur, items[i as int]) is None);
                    lemma_apply_set_none_sticks(orig, items, i + 1 as int);
                }
                return Err(Error::InvalidQuery);
            },
        }
        i = i + 1;
    }
    proof {
        assert(items.subrange(0, updates.len() as int) =~= items);
    }
    Ok(())
}
/// Applies a REMOVE list to the matched inners, in place.
#[verifier::rlimit(60)]
pub fn update_inners_by_remove(
    inners: &mut Vec<Inner>,
    rm_list: Option<&Vec<Item>>,
) -> (r: Result<(), Error>)
    ensures
        match r {
            Ok(_) => spec_apply_remove(old(inners).deep_view(), opt_item_views(rm_list)) == Some(
                final(inners).deep_view(),
            ),
            Err(e) => e == Error::InvalidQuery && (spec_apply_remove(
                old(inners).deep_view(),
                opt_item_views(rm_list),
            ) is None),
        },
{
    let updates = match rm_list {
        None => {
            return Ok(());
        },
        Some(l) => l,
    };
    let ghost items = updates.deep_view();
    let ghost orig = inners.deep_view();
    let mut i: usize = 0;
    proof {
        assert(items.subrange(0, 0) =~= Seq::<ItemView>::empty());
    }
    while i < updates.len()
        invariant
            0 <= i <= updates.len(),
            items == updates.deep_view(),
            opt_item_views(rm_list) == items,
            orig == old(inners).deep_view(),
            spec_apply_remove(orig, items.subrange(0, i as int)) == Some(inners.deep_view()),
        decreases updates.len() - i,
    {
        let ghost cur = inners.deep_view();
        let ghost step = items.subrange(0, i + 1 as int);
        proof {
            assert(step.drop_last() =~= items.subrange(0, i as int));
            assert(step.last() == items[i as int]);
            assert(cur.len() == inners.len());
        }
        match &updates[i] {
            Item::VarWithKey(v, k) => {
                if crate::strorder::str_eq(k.as_str(), UID_KEY) || crate::strorder::str_eq(
                    k.as_str(),
                    HASH_KEY,
                ) {
                    proof {
                        assert(spec_apply_remove_item(cur, items[i as int]) is None);
                        lemma_apply_remove_none_sticks(orig, items, i + 1 as int);
                    }
                    return Err(Error::InvalidQuery);
                }
                match target_index(v.as_str()) {
                    Some(idx) => {
                        if idx < inners.len() {
                            let mut x = take_inner(inners, idx);
                            x.remove_property(k.as_str());
                            put_inner(inners, idx, x);
                            proof {
                                assert(inners.deep_view() =~= cur.update(
                                    idx as int,
                                    InnerView {
                                        properties: crate::rows::spec_remove_prop(
                                            cur[idx as int].properties,
                                            k@,
                                        ).1,
                                        ..cur[idx as int]
                                    },
                                ));
                            }
                        } else {
                            proof {
                                assert(spec_apply_remove_item(cur, items[i as int]) is None);
                                lemma_apply_remove_none_sticks(orig, items, i + 1 as int);
                            }
                            return Err(Error::InvalidQuery);
                        }
                    },
                    None => {
                        proof {
                            assert(spec_apply_remove_item(cur, items[i as int]) is None);
                            lemma_apply_remove_none_sticks(orig, items, i + 1 as int);
                        }
                        return Err(Error::InvalidQuery);
                    },
                }
            },
            Item::VarWithLabel(v, l) => {
                if crate::strorder::str_eq(v.as_str(), RELATION_VAR) {
                    proof {
                        assert(spec_apply_remove_item(cur, items[i as int]) is None);
                        lemma_apply_remove_none_sticks(orig, items, i + 1 as int);
                    }
                    return Err(Error::InvalidQuery);
                }
                match target_index(v.as_str()) {
                    Some(idx) => {
                        if idx < inners.len() {
                            let mut x = take_inner(inners, idx);
                            x.remove_label(l.as_str());
                            put_inner(inners, idx, x);
                            proof {
                                assert(inners.deep_view() =~= cur.update(
                                    idx as int,
                                    InnerView {
                                        labels: crate::rows::spec_remove_label(
                                            cur[idx as int].labels,
                                            l@,
                                        ).1,
                                        ..cur[idx as int]
                                    },
                                ));
                            }
                        } else {
                            proof {
                                assert(spec_apply_remove_item(cur, items[i as int]) is None);
                                lemma_apply_remove_none_sticks(orig, items, i + 1 as int);
                            }
                            return Err(Error::InvalidQuery);
                        }
                    },
                    None => {
                        proof {
                            assert(spec_apply_remove_item(cur, items[i as int]) is None);
                            lemma_apply_remove_none_sticks(orig, items, i + 1 as int);
                        }
                        return Err(Error::InvalidQuery);
                    },
                }
            },
            _ => {
                proof {
                    assert(spec_apply_remove_item(cur, items[i as int]) is None);
                    lemma_apply_remove_none_sticks(orig, items, i + 1 as int);
                }
                return Err(Error::InvalidQuery);
            },
        }
        i = i + 1;
    }
    proof {
        assert(items.subrange(0, updates.len() as int) =~= items);
    }
    Ok(())
}


/// The read that binds the two endpoints of a match-then-link create:
/// the relation is dropped, creation turned off, and both endpoints
/// returned under their canonical names.
pub fn build_link_read_query(query: &CypherQuery) -> (r: CypherQuery)
    ensures
        r@ == (QueryView {
            relation: None,
            use_create: false,
            return_list: Some(
                seq![ItemView::Var(NODE_VAR@), ItemView::Var(NEXT_NODE_VAR@)],
            ),
            ..query@
        }),
{
    let mut rq = query.clone();
    rq.relation = None;
    rq.use_create = false;
    let mut items: Vec<Item> = Vec::new();
    items.push(Item::Var(NODE_VAR.to_owned()));
    items.push(Item::Var(NEXT_NODE_VAR.to_owned()));
    proof {
        assert(items.deep_view() =~= seq![
            ItemView::Var(NODE_VAR@),
            ItemView::Var(NEXT_NODE_VAR@),
        ]);
    }
    rq.return_list = Some(items);
    proof {
        assert(rq@ =~= (QueryView {
            relation: None,
            use_create: false,
            return_list: Some(
                seq![ItemView::Var(NODE_VAR@), ItemView::Var(NEXT_NODE_VAR@)],
            ),
            ..query@
        }));
    }
    rq
}

/// The read that fetches the current plaintext entities before an update:
/// SET and REMOVE are dropped and the matched entities returned, one for a
/// single node, three for a pattern.
pub fn build_update_read_query(query: &CypherQuery) -> (r: CypherQuery)
    ensures
        r@ == (QueryView {
            set_list: None,
            remove_list: None,
            return_list: Some(
                if query@.relation is Some && query@.next_node is Some {
                    seq![
                        ItemView::Var(NODE_VAR@),
                        ItemView::Var(RELATION_VAR@),
                        ItemView::Var(NEXT_NODE_VAR@),
                    ]
                } else {
                    seq![ItemView::Var(NODE_VAR@)]
                },
            ),
            ..query@
        }),
{
    let mut rq = query.clone();
    rq.set_list = None;
    rq.remove_list = None;
    let mut items: Vec<Item> = Vec::new();
    items.push(Item::Var(NODE_VAR.to_owned()));
    if query.relation.is_some() && query.next_node.is_some() {
        items.push(Item::Var(RELATION_VAR.to_owned()));
        items.push(Item::Var(NEXT_NODE_VAR.to_owned()));
        proof {
            assert(items.deep_view() =~= seq![
                ItemView::Var(NODE_VAR@),
                ItemView::Var(RELATION_VAR@),
                ItemView::Var(NEXT_NODE_VAR@),
            ]);
        }
    } else {
        proof {
            assert(items.deep_view() =~= seq![ItemView::Var(NODE_VAR@)]);
        }
    }
    rq.return_list = Some(items);
    proof {
        assert(rq@ =~= (QueryView {
            set_list: None,
            remove_list: None,
            return_list: Some(
                if query@.relation is Some && query@.next_node is Some {
                    seq![
                        ItemView::Var(NODE_VAR@),
                        ItemView::Var(RELATION_VAR@),
                        ItemView::Var(NEXT_NODE_VAR@),
                    ]
                } else {
                    seq![ItemView::Var(NODE_VAR@)]
                },
            ),
            ..query@
        }));
    }
    rq
}

/// The plaintext form of one backend query of a match-then-link create:
/// both endpoints pinned to the identities a read bound, the fresh relation
/// given its composite identity and digest.
pub open spec fn spec_link_create_view(q: QueryView, fu: Seq<char>, tu: Seq<char>) -> QueryView {
    QueryView {
        node: Some(spec_add_uid(q.node->Some_0, fu)),
        next_node: Some(spec_add_uid(q.next_node->Some_0, tu)),
        relation: Some(spec_with_hash(spec_add_uid(q.relation->Some_0, fu + tu))),
        ..q
    }
}

/// Builds one encrypted backend query of a match-then-link create, for one
/// matched endpoint pair. A fresh relation must carry its type label, and
/// no entity may already use a reserved key.
pub fn build_link_create_query(
    crypto: &Crypto,
    query: &CypherQuery,
    from_uid: &String,
    to_uid: &String,
) -> (r: Result<CypherQuery, Error>)
    requires
        query@.node is Some,
        query@.relation is Some,
        query@.next_node is Some,
    ensures
        match r {
            Ok(q2) => q2@ == spec_enc_query(
                crypto@,
                spec_link_create_view(query@, from_uid@, to_uid@),
            ) && spec_delete_list_plain(query@) && query@.relation->Some_0.labels.len() > 0
                && no_reserved_keys(query@.node->Some_0.properties) && no_reserved_keys(
                query@.relation->Some_0.properties,
            ) && no_reserved_keys(query@.next_node->Some_0.properties),
            Err(e) => e == Error::InvalidQuery && (!spec_delete_list_plain(query@)
                || query@.relation->Some_0.labels.len() == 0 || !no_reserved_keys(
                query@.node->Some_0.properties,
            ) || !no_reserved_keys(query@.relation->Some_0.properties) || !no_reserved_keys(
                query@.next_node->Some_0.properties,
            )),
        },
{
    match &query.relation {
        Some(rel) => {
            if rel.labels.len() == 0 || has_reserved_key(&rel.properties) {
                return Err(Error::InvalidQuery);
            }
        },
        None => {
            return Err(Error::InvalidQuery);
        },
    }
    match &query.node {
        Some(n) => {
            if has_reserved_key(&n.properties) {
                return Err(Error::InvalidQuery);
            }
        },
        None => {
            return Err(Error::InvalidQuery);
        },
    }
    match &query.next_node {
        Some(n) => {
            if has_reserved_key(&n.properties) {
                return Err(Error::InvalidQuery);
            }
        },
        None => {
            return Err(Error::InvalidQuery);
        },
    }
    let mut single = query.clone();
    let mut node = single.node.unwrap();
    node.add_property(UID_KEY.to_owned(), from_uid.clone());
    single.node = Some(node);
    let mut next = single.next_node.unwrap();
    next.add_property(UID_KEY.to_owned(), to_uid.clone());
    single.next_node = Some(next);
    let mut relation = single.relation.unwrap();
    add_uid_to_relationship(&mut relation, from_uid, to_uid);
    add_hash_to_relationship(&mut relation);
    single.relation = Some(relation);
    proof {
        assert(single@ =~= spec_link_create_view(query@, from_uid@, to_uid@));
    }
    match crypto.enc_query(&mut single) {
        Ok(_) => Ok(single),
        Err(e) => Err(e),
    }
}

/// The plaintext form of one backend query of a single-node update: the
/// node pinned to its identity, and the recomputed digest appended to SET.
pub open spec fn spec_update_single_view(q: QueryView, uid: Seq<char>, h: Seq<char>) -> QueryView {
    QueryView {
        node: Some(spec_add_uid(q.node->Some_0, uid)),
        set_list: Some(
            (match q.set_list {
                Some(l) => l,
                None => Seq::empty(),
            }).push(ItemView::VarWithKeyValue(NODE_VAR@, HASH_KEY@, h)),
        ),
        ..q
    }
}

/// Builds one encrypted backend query of a single-node update, for one
/// matched node: filter by its identity and also store the fresh digest.
pub fn build_update_single_query(
    crypto: &Crypto,
    query: &CypherQuery,
    uid: &String,
    new_hash: &String,
) -> (r: Result<CypherQuery, Error>)
    requires
        query@.node is Some,
    ensures
        match r {
            Ok(q2) => q2@ == spec_enc_query(
                crypto@,
                spec_update_single_view(query@, uid@, new_hash@),
            ) && spec_delete_list_plain(query@),
            Err(e) => e == Error::InvalidQuery && !spec_delete_list_plain(query@),
        },
{
    let mut single = query.clone();
    let mut node = single.node.unwrap();
    node.add_property(UID_KEY.to_owned(), uid.clone());
    single.node = Some(node);
    let mut sl: Vec<Item> = match clone_opt_item_vec(&single.set_list) {
        Some(l) => l,
        None => Vec::new(),
    };
    let ghost sl0 = sl.deep_view();
    sl.push(Item::VarWithKeyValue(NODE_VAR.to_owned(), HASH_KEY.to_owned(), new_hash.clone()));
    proof {
        assert(sl.deep_view() =~= sl0.push(
            ItemView::VarWithKeyValue(NODE_VAR@, HASH_KEY@, new_hash@),
        ));
    }
    single.set_list = Some(sl);
    proof {
        assert(single@ =~= spec_update_single_view(query@, uid@, new_hash@));
    }
    match crypto.enc_query(&mut single) {
        Ok(_) => Ok(single),
        Err(e) => Err(e),
    }
}

/// The plaintext form of one backend query of a pattern update: the
/// relation pinned to its identity, and the three recomputed digests
/// appended to SET in node, relation, next order.
pub open spec fn spec_update_pattern_view(
    q: QueryView,
    r_uid: Seq<char>,
    h_n: Seq<char>,
    h_r: Seq<char>,
    h_m: Seq<char>,
) -> QueryView {
    QueryView {
        relation: Some(spec_add_uid(q.relation->Some_0, r_uid)),
        set_list: Some(
            (match q.set_list {
                Some(l) => l,
                None => Seq::empty(),
            }).push(ItemView::VarWithKeyValue(NODE_VAR@, HASH_KEY@, h_n)).push(
                ItemView::VarWithKeyValue(RELATION_VAR@, HASH_KEY@, h_r),
            ).push(ItemView::VarWithKeyValue(NEXT_NODE_VAR@, HASH_KEY@, h_m)),
        ),
        ..q
    }
}

/// Builds one encrypted backend query of a pattern update, for one matched
/// pattern: filter by the relation's identity and store all three digests.
pub fn build_update_pattern_query(
    crypto: &Crypto,
    query: &CypherQuery,
    r_uid: &String,
    h_n: &String,
    h_r: &String,
    h_m: &String,
) -> (r: Result<CypherQuery, Error>)
    requires
        query@.relation is Some,
    ensures
        match r {
            Ok(q2) => q2@ == spec_enc_query(
                crypto@,
                spec_update_pattern_view(query@, r_uid@, h_n@, h_r@, h_m@),
            ) && spec_delete_list_plain(query@),
            Err(e) => e == Error::InvalidQuery && !spec_delete_list_plain(query@),
        },
{
    let mut single = query.clone();
    let mut relation = single.relation.unwrap();
    relation.add_property(UID_KEY.to_owned(), r_uid.clone());
    single.relation = Some(relation);
    let mut sl: Vec<Item> = match clone_opt_item_vec(&single.set_list) {
        Some(l) => l,
        None => Vec::new(),
    };
    let ghost sl0 = sl.deep_view();
    sl.push(Item::VarWithKeyValue(NODE_VAR.to_owned(), HASH_KEY.to_owned(), h_n.clone()));
    sl.push(Item::VarWithKeyValue(RELATION_VAR.to_owned(), HASH_KEY.to_owned(), h_r.clone()));
    sl.push(Item::VarWithKeyValue(NEXT_NODE_VAR.to_owned(), HASH_KEY.to_owned(), h_m.clone()));
    proof {
        assert(sl.deep_view() =~= sl0.push(
            ItemView::VarWithKeyValue(NODE_VAR@, HASH_KEY@, h_n@),
        ).push(ItemView::VarWithKeyValue(RELATION_VAR@, HASH_KEY@, h_r@)).push(
            ItemView::VarWithKeyValue(NEXT_NODE_VAR@, HASH_KEY@, h_m@),
        ));
    }
    single.set_list = Some(sl);
    proof {
        assert(single@ =~= spec_update_pattern_view(query@, r_uid@, h_n@, h_r@, h_m@));
    }
    match crypto.enc_query(&mut single) {
        Ok(_) => Ok(single),
        Err(e) => Err(e),
    }
}

/// Readies a single-node create: a fresh identity and the content digest
/// are attached to the node, and the whole query is encrypted. Returns the
/// identity the node was given. The reserved bookkeeping keys belong to
/// the proxy, so a node that already carries one is rejected.
pub fn prepare_create_single(crypto: &Crypto, query: &mut CypherQuery) -> (r: Result<String, Error>)
    requires
        old(query)@.node is Some,
    ensures
        match r {
            Ok(uid) => uid@.len() == 36 && final(query)@ == spec_enc_query(
                crypto@,
                QueryView {
                    node: Some(spec_with_hash(spec_add_uid(old(query)@.node->Some_0, uid@))),
                    ..old(query)@
                },
            ) && spec_delete_list_plain(old(query)@) && no_reserved_keys(
                old(query)@.node->Some_0.properties,
            ),
            Err(e) => e == Error::InvalidQuery && (!spec_delete_list_plain(old(query)@)
                || !no_reserved_keys(old(query)@.node->Some_0.properties)),
        },
{
    match &query.node {
        Some(n) => {
            if has_reserved_key(&n.properties) {
                return Err(Error::InvalidQuery);
            }
        },
        None => {
            return Err(Error::InvalidQuery);
        },
    }
    let mut node = match query.node.take() {
        Some(n) => n,
        None => {
            return Err(Error::InvalidQuery);
        },
    };
    let uid = add_uid_to_node(&mut node);
    add_hash_to_node(&mut node);
    query.node = Some(node);
    proof {
        assert(query@ =~= (QueryView {
            node: Some(spec_with_hash(spec_add_uid(old(query)@.node->Some_0, uid@))),
            ..old(query)@
        }));
    }
    match crypto.enc_query(query) {
        Ok(_) => Ok(uid),
        Err(e) => Err(e),
    }
}

/// Readies a pattern create with both endpoints fresh: identities for both
/// nodes, the composite identity for the relation, digests for all three,
/// then encryption. Returns the two node identities. A fresh relation must
/// carry its type label, and no entity may already use a reserved key.
pub fn prepare_create_pattern(crypto: &Crypto, query: &mut CypherQuery) -> (r: Result<
    (String, String),
    Error,
>)
    requires
        old(query)@.node is Some,
        old(query)@.relation is Some,
        old(query)@.next_node is Some,
    ensures
        match r {
            Ok(uids) => uids.0@.len() == 36 && uids.1@.len() == 36 && final(query)@
                == spec_enc_query(
                crypto@,
                QueryView {
                    node: Some(spec_with_hash(spec_add_uid(old(query)@.node->Some_0, uids.0@))),
                    next_node: Some(
                        spec_with_hash(spec_add_uid(old(query)@.next_node->Some_0, uids.1@)),
                    ),
                    relation: Some(
                        spec_with_hash(
                            spec_add_uid(old(query)@.relation->Some_0, uids.0@ + uids.1@),
                        ),
                    ),
                    ..old(query)@
                },
            ) && spec_delete_list_plain(old(query)@) && old(query)@.relation->Some_0.labels.len()
                > 0 && no_reserved_keys(old(query)@.node->Some_0.properties) && no_reserved_keys(
                old(query)@.relation->Some_0.properties,
            ) && no_reserved_keys(old(query)@.next_node->Some_0.properties),
            Err(e) => e == Error::InvalidQuery && (!spec_delete_list_plain(old(query)@)
                || old(query)@.relation->Some_0.labels.len() == 0 || !no_reserved_keys(
                old(query)@.node->Some_0.properties,
            ) || !no_reserved_keys(old(query)@.relation->Some_0.properties) || !no_reserved_keys(
                old(query)@.next_node->Some_0.properties,
            )),
        },
{
    match &query.relation {
        Some(rel) => {
            if rel.labels.len() == 0 || has_reserved_key(&rel.properties) {
                return Err(Error::InvalidQuery);
            }
        },
        None => {
            return Err(Error::InvalidQuery);
        },
    }
    match &query.node {
        Some(n) => {
            if has_reserved_key(&n.properties) {
                return Err(Error::InvalidQuery);
            }
        },
        None => {
            return Err(Error::InvalidQuery);
        },
    }
    match &query.next_node {
        Some(n) => {
            if has_reserved_key(&n.properties) {
                return Err(Error::InvalidQuery);
            }
        },
        None => {
            return Err(Error::InvalidQuery);
        },
    }
    let mut node = match query.node.take() {
        Some(n) => n,
        None => {
            return Err(Error::InvalidQuery);
        },
    };
    let from = add_uid_to_node(&mut node);
    add_hash_to_node(&mut node);
    query.node = Some(node);

    let mut next = match query.next_node.take() {
        Some(n) => n,
        None => {
            return Err(Error::InvalidQuery);
        },
    };
    let to = add_uid_to_node(&mut next);
    add_hash_to_node(&mut next);
    query.next_node = Some(next);

    let mut relation = match query.relation.take() {
        Some(n) => n,
        None => {
            return Err(Error::InvalidQuery);
        },
    };
    add_uid_to_relationship(&mut relation, &from, &to);
    add_hash_to_relationship(&mut relation);
    query.relation = Some(relation);
    proof {
        assert(query@ =~= (QueryView {
            node: Some(spec_with_hash(spec_add_uid(old(query)@.node->Some_0, from@))),
            next_node: Some(spec_with_hash(spec_add_uid(old(query)@.next_node->Some_0, to@))),
            relation: Some(
                spec_with_hash(spec_add_uid(old(query)@.relation->Some_0, from@ + to@)),
            ),
            ..old(query)@
        }));
    }
    match crypto.enc_query(query) {
        Ok(_) => Ok((from, to)),
        Err(e) => Err(e),
    }
}


/// Every entity a create writes carries exactly one `uid` and exactly one
/// `hash` pair: the client brings none (creates reject reserved keys), the
/// proxy attaches one of each, canonicalization only reorders, and
/// tokenization never makes a user key look reserved.
pub proof fn lemma_created_entity_reserved_once(key: Seq<u8>, e: EntityView, u: Seq<char>)
    requires
        no_reserved_keys(e.properties),
    ensures
        crate::digest::count_key(
            spec_enc_query_entity(key, e, u).properties,
            UID_KEY@,
        ) == 1,
        crate::digest::count_key(
            spec_enc_query_entity(key, e, u).properties,
            HASH_KEY@,
        ) == 1,
{
    reveal_strlit("uid");
    reveal_strlit("hash");
    let p1 = spec_add_uid(e, u).properties;
    assert(p1 == e.properties.push((UID_KEY@, u)));
    crate::digest::lemma_no_reserved_count_zero(e.properties, UID_KEY@);
    crate::digest::lemma_no_reserved_count_zero(e.properties, HASH_KEY@);
    assert(p1.drop_last() =~= e.properties);
    assert(p1.last() == (UID_KEY@, u));
    assert(UID_KEY@ == "uid"@);
    assert(HASH_KEY@ == "hash"@);
    assert("uid"@.len() == 3);
    assert("hash"@.len() == 4);
    assert(UID_KEY@ != HASH_KEY@);
    assert(crate::digest::count_key(p1, UID_KEY@) == crate::digest::count_key(
        p1.drop_last(),
        UID_KEY@,
    ) + 1);
    assert(crate::digest::count_key(p1.drop_last(), UID_KEY@) == crate::digest::count_key(
        e.properties,
        UID_KEY@,
    ));
    assert(crate::digest::count_key(p1, UID_KEY@) == 1);
    assert(crate::digest::count_key(p1, HASH_KEY@) == 0);

    lemma_pair_order_total();
    let sorted = p1.sort_by(pair_order());
    p1.lemma_sort_by_ensures(pair_order());
    crate::digest::lemma_count_key_permutation(p1, sorted, UID_KEY@);
    crate::digest::lemma_count_key_permutation(p1, sorted, HASH_KEY@);

    let p2 = spec_with_hash(spec_add_uid(e, u)).properties;
    assert(p2 == sorted.push((HASH_KEY@, spec_content_hash(spec_add_uid(e, u).labels, p1))));
    assert(p2.drop_last() =~= sorted);
    assert(crate::digest::count_key(p2, UID_KEY@) == 1);
    assert(crate::digest::count_key(p2, HASH_KEY@) == 1);

    crate::crypto::lemma_count_key_enc(key, p2, UID_KEY@);
    crate::crypto::lemma_count_key_enc(key, p2, HASH_KEY@);
}

/// The stored form of one freshly created entity: identity and digest
/// attached, then everything tokenized but the reserved pairs.
pub open spec fn spec_enc_query_entity(key: Seq<u8>, e: EntityView, u: Seq<char>) -> EntityView {
    crate::crypto::spec_enc_entity(key, spec_with_hash(spec_add_uid(e, u)))
}

} // verus!

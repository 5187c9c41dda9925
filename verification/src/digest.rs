use vstd::prelude::*;
use vstd::multiset::Multiset;
use vstd::seq_lib::lemma_sorted_unique;
use vstd::string::*;
use vstd::utf8::encode_utf8;

use crate::rows::{spec_first_index, spec_get, key_pred, Inner, InnerView};
use crate::rows::{lemma_first_index_is, lemma_first_index_none, lemma_first_index_properties};
use crate::strorder::{
    lemma_pair_order_total, lemma_string_order_total, pair_order, sort_props, sort_strings,
    str_eq, string_order,
};

verus! {

/// The reserved property key that carries an entity's identity.
pub const UID_KEY: &'static str = "uid";

/// The reserved property key that carries an entity's integrity digest.
pub const HASH_KEY: &'static str = "hash";

/// The hex form of the digest of a byte sequence.
///
/// The digest function itself lives in an outside crate; only its
/// determinism and output length are relied on, so it is left abstract.
pub uninterp spec fn blake3_hex(data: Seq<u8>) -> Seq<char>;

/// Relies on blake3::hash: the digest is a function of the input bytes
/// alone, and its hex form holds 64 characters.
#[verifier::external_body]
fn blake3_hex_exec(data: &[u8]) -> (r: String)
    ensures
        r@ == blake3_hex(data@),
        r@.len() == 64,
{
    blake3::hash(data).to_hex().to_string()
}

/// The UTF-8 bytes of a sequence of strings, concatenated in order.
pub open spec fn concat_str_bytes(s: Seq<Seq<char>>) -> Seq<u8>
    decreases s.len(),
{
    if s.len() == 0 {
        Seq::empty()
    } else {
        concat_str_bytes(s.drop_last()) + encode_utf8(s.last())
    }
}

/// The UTF-8 bytes of key/value pairs, key then value, concatenated in order.
pub open spec fn concat_prop_bytes(s: Seq<(Seq<char>, Seq<char>)>) -> Seq<u8>
    decreases s.len(),
{
    if s.len() == 0 {
        Seq::empty()
    } else {
        concat_prop_bytes(s.drop_last()) + encode_utf8(s.last().0) + encode_utf8(s.last().1)
    }
}

/// Whether a key is one of the two reserved property keys.
pub open spec fn is_reserved_key(k: Seq<char>) -> bool {
    k == UID_KEY@ || k == HASH_KEY@
}

/// Keeps exactly the pairs that enter the digest.
pub open spec fn hash_keep() -> spec_fn((Seq<char>, Seq<char>)) -> bool {
    |p: (Seq<char>, Seq<char>)| !is_reserved_key(p.0)
}

/// Whether a property list holds no reserved bookkeeping key; client
/// queries must satisfy this, so that each stored entity carries exactly
/// the one `uid` and the one `hash` the proxy attaches.
pub open spec fn no_reserved_keys(props: Seq<(Seq<char>, Seq<char>)>) -> bool {
    forall|i: int| 0 <= i < props.len() ==> !is_reserved_key((#[trigger] props[i]).0)
}

/// The property pairs that enter the digest: everything but `uid` and `hash`.
pub open spec fn hashed_props(props: Seq<(Seq<char>, Seq<char>)>) -> Seq<(Seq<char>, Seq<char>)> {
    props.filter(hash_keep())
}

/// The canonical byte serialization of an entity's content: sorted labels,
/// then sorted non-reserved properties.
pub open spec fn canonical_bytes(
    labels: Seq<Seq<char>>,
    props: Seq<(Seq<char>, Seq<char>)>,
) -> Seq<u8> {
    concat_str_bytes(labels.sort_by(string_order())) + concat_prop_bytes(
        hashed_props(props).sort_by(pair_order()),
    )
}

/// The integrity digest of an entity's content.
pub open spec fn spec_content_hash(
    labels: Seq<Seq<char>>,
    props: Seq<(Seq<char>, Seq<char>)>,
) -> Seq<char> {
    blake3_hex(canonical_bytes(labels, props))
}

fn filter_reserved(props: &Vec<(String, String)>) -> (r: Vec<(String, String)>)
    ensures
        r.deep_view() == hashed_props(props.deep_view()),
{
    let ghost keep = hash_keep();
    let mut out: Vec<(String, String)> = Vec::new();
    let mut i: usize = 0;
    proof {
        reveal(Seq::filter);
        assert(props.deep_view().subrange(0, 0).filter(keep) =~= Seq::empty());
        assert(out.deep_view() =~= Seq::empty());
    }
    while i < props.len()
        invariant
            0 <= i <= props.len(),
            keep == hash_keep(),
            out.deep_view() == props.deep_view().subrange(0, i as int).filter(keep),
        decreases props.len() - i,
    {
        let p = &props[i];
        let reserved = str_eq(p.0.as_str(), UID_KEY) || str_eq(p.0.as_str(), HASH_KEY);
        let ghost prev = out.deep_view();
        if !reserved {
            out.push((p.0.clone(), p.1.clone()));
            proof {
                assert(out.deep_view() =~= prev.push(props.deep_view()[i as int]));
            }
        }
        proof {
            reveal(Seq::filter);
            let sub = props.deep_view().subrange(0, i as int);
            let ext = props.deep_view().subrange(0, i + 1 as int);
            assert(ext.drop_last() =~= sub);
            assert(ext.last() == props.deep_view()[i as int]);
            if reserved {
                assert(ext.filter(keep) =~= sub.filter(keep));
            } else {
                assert(ext.filter(keep) =~= sub.filter(keep).push(props.deep_view()[i as int]));
            }
        }
        i = i + 1;
    }
    proof {
        assert(props.deep_view().subrange(0, props.len() as int) =~= props.deep_view());
    }
    out
}

fn append_str_bytes(bytes: &mut Vec<u8>, s: &str)
    ensures
        final(bytes)@ == old(bytes)@ + encode_utf8(s@),
{
    let mut piece = s.as_bytes_vec();
    bytes.append(&mut piece);
}

/// Computes the integrity digest of the given labels and properties,
/// canonicalizing order and skipping the reserved keys.
pub fn content_hash(labels: &Vec<String>, props: &Vec<(String, String)>) -> (r: String)
    ensures
        r@ == spec_content_hash(labels.deep_view(), props.deep_view()),
        r@.len() == 64,
{
    let sorted_labels = sort_strings(labels);
    let kept = filter_reserved(props);
    let sorted_props = sort_props(&kept);

    let mut bytes: Vec<u8> = Vec::new();
    let mut i: usize = 0;
    proof {
        assert(bytes@ =~= concat_str_bytes(sorted_labels.deep_view().subrange(0, 0)));
    }
    while i < sorted_labels.len()
        invariant
            0 <= i <= sorted_labels.len(),
            bytes@ == concat_str_bytes(sorted_labels.deep_view().subrange(0, i as int)),
        decreases sorted_labels.len() - i,
    {
        append_str_bytes(&mut bytes, sorted_labels[i].as_str());
        proof {
            let views = sorted_labels.deep_view();
            assert(views.subrange(0, i + 1 as int).drop_last() =~= views.subrange(0, i as int));
            assert(views.subrange(0, i + 1 as int).last() == views[i as int]);
        }
        i = i + 1;
    }
    proof {
        assert(sorted_labels.deep_view().subrange(0, sorted_labels.len() as int)
            =~= sorted_labels.deep_view());
    }

    let ghost label_bytes = bytes@;
    let mut j: usize = 0;
    proof {
        assert(concat_prop_bytes(sorted_props.deep_view().subrange(0, 0)) =~= Seq::empty());
        assert(bytes@ =~= label_bytes + concat_prop_bytes(
            sorted_props.deep_view().subrange(0, 0),
        ));
    }
    while j < sorted_props.len()
        invariant
            0 <= j <= sorted_props.len(),
            bytes@ == label_bytes + concat_prop_bytes(
                sorted_props.deep_view().subrange(0, j as int),
            ),
        decreases sorted_props.len() - j,
    {
        append_str_bytes(&mut bytes, sorted_props[j].0.as_str());
        append_str_bytes(&mut bytes, sorted_props[j].1.as_str());
        proof {
            let views = sorted_props.deep_view();
            assert(views.subrange(0, j + 1 as int).drop_last() =~= views.subrange(0, j as int));
            assert(views.subrange(0, j + 1 as int).last() == views[j as int]);
            assert(bytes@ =~= label_bytes + concat_prop_bytes(views.subrange(0, j + 1 as int)));
        }
        j = j + 1;
    }
    proof {
        assert(sorted_props.deep_view().subrange(0, sorted_props.len() as int)
            =~= sorted_props.deep_view());
        assert(bytes@ =~= canonical_bytes(labels.deep_view(), props.deep_view()));
    }
    blake3_hex_exec(bytes.as_slice())
}

/// Filtering a sequence filters its multiset.
pub proof fn lemma_filter_to_multiset<A>(s: Seq<A>, pred: spec_fn(A) -> bool)
    ensures
        s.filter(pred).to_multiset() =~= s.to_multiset().filter(pred),
    decreases s.len(),
{
    broadcast use vstd::seq_lib::group_to_multiset_ensures;
    broadcast use vstd::multiset::group_multiset_axioms;

    reveal(Seq::filter);
    if s.len() == 0 {
        assert(s.filter(pred) =~= Seq::empty());
        assert(s.to_multiset() =~= Multiset::empty());
        assert(Seq::<A>::empty().to_multiset() =~= Multiset::empty());
    } else {
        let dl = s.drop_last();
        lemma_filter_to_multiset(dl, pred);
        assert(s =~= dl.push(s.last()));
        assert(s.to_multiset() =~= dl.to_multiset().insert(s.last()));
        if pred(s.last()) {
            assert(s.filter(pred) == dl.filter(pred).push(s.last()));
            assert(s.filter(pred).to_multiset() =~= dl.filter(pred).to_multiset().insert(
                s.last(),
            ));
        } else {
            assert(s.filter(pred) == dl.filter(pred));
        }
    }
}

/// The digest ignores the order of labels and of properties: permuting
/// either leaves the hash unchanged.
pub proof fn lemma_hash_order_insensitive(
    labels1: Seq<Seq<char>>,
    props1: Seq<(Seq<char>, Seq<char>)>,
    labels2: Seq<Seq<char>>,
    props2: Seq<(Seq<char>, Seq<char>)>,
)
    requires
        labels1.to_multiset() == labels2.to_multiset(),
        props1.to_multiset() == props2.to_multiset(),
    ensures
        spec_content_hash(labels1, props1) == spec_content_hash(labels2, props2),
{
    broadcast use vstd::multiset::group_multiset_axioms;

    lemma_string_order_total();
    lemma_pair_order_total();
    labels1.lemma_sort_by_ensures(string_order());
    labels2.lemma_sort_by_ensures(string_order());
    lemma_sorted_unique(
        labels1.sort_by(string_order()),
        labels2.sort_by(string_order()),
        string_order(),
    );
    assert(labels1.sort_by(string_order()) == labels2.sort_by(string_order()));

    lemma_filter_to_multiset(props1, hash_keep());
    lemma_filter_to_multiset(props2, hash_keep());
    assert(hashed_props(props1).to_multiset() =~= hashed_props(props2).to_multiset());
    hashed_props(props1).lemma_sort_by_ensures(pair_order());
    hashed_props(props2).lemma_sort_by_ensures(pair_order());
    lemma_sorted_unique(
        hashed_props(props1).sort_by(pair_order()),
        hashed_props(props2).sort_by(pair_order()),
        pair_order(),
    );
    assert(hashed_props(props1).sort_by(pair_order()) == hashed_props(props2).sort_by(
        pair_order(),
    ));
}

/// The stored digest of an entity, if any: the first `hash` property.
pub open spec fn spec_stored_hash(iv: InnerView) -> Option<Seq<char>> {
    spec_get(iv.properties, HASH_KEY@)
}

/// A returned entity passes verification when it carries a `uid`, carries a
/// `hash`, and the stored hash equals the recomputed digest of its content.
pub open spec fn inner_verified(iv: InnerView) -> bool {
    spec_get(iv.properties, UID_KEY@) is Some && spec_stored_hash(iv) == Some(
        spec_content_hash(iv.labels, iv.properties),
    )
}

/// Checks a decrypted entity's integrity.
pub fn verify_inner(inner: &Inner) -> (r: bool)
    ensures
        r == inner_verified(inner@),
{
    let has_uid = match inner.get(UID_KEY) {
        Some(_) => true,
        None => false,
    };
    if !has_uid {
        return false;
    }
    match inner.get(HASH_KEY) {
        None => false,
        Some(stored) => {
            let stored = stored.clone();
            let computed = content_hash(inner.labels(), inner.properties());
            str_eq(stored.as_str(), computed.as_str())
        },
    }
}

/// Updating a pair whose key is reserved leaves the hashed pairs unchanged.
proof fn lemma_reserved_update_keeps_hashed(
    props: Seq<(Seq<char>, Seq<char>)>,
    i: int,
    v2: Seq<char>,
)
    requires
        0 <= i < props.len(),
        is_reserved_key(props[i].0),
    ensures
        hashed_props(props.update(i, (props[i].0, v2))) == hashed_props(props),
    decreases props.len(),
{
    reveal(Seq::filter);
    let updated = props.update(i, (props[i].0, v2));
    let keep = hash_keep();
    if i == props.len() - 1 {
        assert(updated.drop_last() =~= props.drop_last());
        assert(!keep(updated.last()));
        assert(!keep(props.last()));
        assert(updated.filter(keep) == updated.drop_last().filter(keep));
    } else {
        lemma_reserved_update_keeps_hashed(props.drop_last(), i, v2);
        assert(updated.drop_last() =~= props.drop_last().update(i, (props[i].0, v2)));
        assert(updated.last() == props.last());
        if keep(props.last()) {
            assert(props.filter(keep) == props.drop_last().filter(keep).push(props.last()));
            assert(updated.filter(keep) == updated.drop_last().filter(keep).push(updated.last()));
        } else {
            assert(props.filter(keep) == props.drop_last().filter(keep));
            assert(updated.filter(keep) == updated.drop_last().filter(keep));
        }
    }
}

/// Tampering with the stored digest is always detected: overwriting the
/// `hash` value of a verified entity with any other value makes
/// verification fail.
pub proof fn lemma_hash_tamper_detected(iv: InnerView, i: int, h2: Seq<char>)
    requires
        inner_verified(iv),
        spec_first_index(iv.properties, key_pred(HASH_KEY@)) == Some(i),
        h2 != iv.properties[i].1,
    ensures
        !inner_verified(
            InnerView {
                properties: iv.properties.update(i, (iv.properties[i].0, h2)),
                ..iv
            },
        ),
{
    let props = iv.properties;
    lemma_first_index_properties(props, key_pred(HASH_KEY@));
    assert(props[i].0 == HASH_KEY@);
    let updated = props.update(i, (props[i].0, h2));
    let iv2 = InnerView { properties: updated, ..iv };

    // The digest itself is computed over the same content.
    lemma_reserved_update_keeps_hashed(props, i, h2);
    assert(spec_content_hash(iv2.labels, iv2.properties) == spec_content_hash(
        iv.labels,
        iv.properties,
    ));

    // The stored hash is now h2: the first `hash` pair sits at the same spot.
    assert(updated[i].0 == HASH_KEY@);
    assert forall|j: int| 0 <= j < i implies !key_pred(HASH_KEY@)(#[trigger] updated[j]) by {
        assert(updated[j] == props[j]);
    }
    lemma_first_index_is(updated, key_pred(HASH_KEY@), i);
    assert(spec_stored_hash(iv2) == Some(h2));

    // The uid lookup is untouched only if uid sits elsewhere; either way a
    // changed stored hash no longer matches the digest.
    assert(spec_stored_hash(iv) == Some(props[i].1));
    assert(spec_content_hash(iv.labels, iv.properties) == props[i].1);
}


/// How many properties carry the given key.
pub open spec fn count_key(props: Seq<(Seq<char>, Seq<char>)>, k: Seq<char>) -> nat
    decreases props.len(),
{
    if props.len() == 0 {
        0
    } else {
        count_key(props.drop_last(), k) + if props.last().0 == k {
            1nat
        } else {
            0nat
        }
    }
}

/// The count of a key is the length of the list filtered to it.
pub proof fn lemma_count_key_is_filter_len(props: Seq<(Seq<char>, Seq<char>)>, k: Seq<char>)
    ensures
        count_key(props, k) == props.filter(|p: (Seq<char>, Seq<char>)| p.0 == k).len(),
    decreases props.len(),
{
    reveal(Seq::filter);
    if props.len() > 0 {
        lemma_count_key_is_filter_len(props.drop_last(), k);
    }
}

/// Reordering a property list leaves every key count unchanged.
pub proof fn lemma_count_key_permutation(
    s1: Seq<(Seq<char>, Seq<char>)>,
    s2: Seq<(Seq<char>, Seq<char>)>,
    k: Seq<char>,
)
    requires
        s1.to_multiset() == s2.to_multiset(),
    ensures
        count_key(s1, k) == count_key(s2, k),
{
    broadcast use vstd::seq_lib::group_to_multiset_ensures;

    let keyp = |p: (Seq<char>, Seq<char>)| p.0 == k;
    lemma_count_key_is_filter_len(s1, k);
    lemma_count_key_is_filter_len(s2, k);
    lemma_filter_to_multiset(s1, keyp);
    lemma_filter_to_multiset(s2, keyp);
    assert(s1.filter(keyp).to_multiset() =~= s2.filter(keyp).to_multiset());
    assert(s1.filter(keyp).len() == s1.filter(keyp).to_multiset().len());
    assert(s2.filter(keyp).len() == s2.filter(keyp).to_multiset().len());
}

/// A list with no reserved key counts zero for each reserved key.
pub proof fn lemma_no_reserved_count_zero(props: Seq<(Seq<char>, Seq<char>)>, k: Seq<char>)
    requires
        no_reserved_keys(props),
        is_reserved_key(k),
    ensures
        count_key(props, k) == 0,
    decreases props.len(),
{
    if props.len() > 0 {
        assert(!is_reserved_key(props.last().0));
        assert(no_reserved_keys(props.drop_last()));
        lemma_no_reserved_count_zero(props.drop_last(), k);
    }
}


} // verus!

use vstd::prelude::*;
use vstd::string::*;

use crate::node::{EntityView, Node};
use crate::strorder::{sort_props, sort_strings, str_eq};
use crate::util::{clone_prop_vec, clone_string_vec};

verus! {

/// A returned entity: its labels and its property list.
#[derive(Debug)]
pub struct Inner {
    pub labels: Vec<String>,
    pub properties: Vec<(String, String)>,
}

/// The mathematical model of an [`Inner`].
#[verifier::ext_equal]
pub ghost struct InnerView {
    pub labels: Seq<Seq<char>>,
    pub properties: Seq<(Seq<char>, Seq<char>)>,
}

impl View for Inner {
    type V = InnerView;

    open spec fn view(&self) -> InnerView {
        InnerView { labels: self.labels.deep_view(), properties: self.properties.deep_view() }
    }
}

impl DeepView for Inner {
    type V = InnerView;

    open spec fn deep_view(&self) -> InnerView {
        self.view()
    }
}

impl Clone for Inner {
    fn clone(&self) -> (res: Self)
        ensures
            res@ == self@,
    {
        Inner {
            labels: clone_string_vec(&self.labels),
            properties: clone_prop_vec(&self.properties),
        }
    }
}

/// The position of the first element satisfying `pred`, scanning left to right.
pub open spec fn spec_first_index<A>(s: Seq<A>, pred: spec_fn(A) -> bool) -> Option<int>
    decreases s.len(),
{
    if s.len() == 0 {
        None
    } else if pred(s[0]) {
        Some(0)
    } else {
        match spec_first_index(s.drop_first(), pred) {
            None => None,
            Some(i) => Some(i + 1),
        }
    }
}

/// What [`spec_first_index`] returns: the first matching position, if any.
pub proof fn lemma_first_index_properties<A>(s: Seq<A>, pred: spec_fn(A) -> bool)
    ensures
        match spec_first_index(s, pred) {
            Some(i) => 0 <= i < s.len() && pred(s[i]) && forall|j: int|
                0 <= j < i ==> !pred(#[trigger] s[j]),
            None => forall|j: int| 0 <= j < s.len() ==> !pred(#[trigger] s[j]),
        },
    decreases s.len(),
{
    if s.len() > 0 && !pred(s[0]) {
        lemma_first_index_properties(s.drop_first(), pred);
        let df = s.drop_first();
        match spec_first_index(df, pred) {
            Some(i) => {
                assert(pred(s[i + 1])) by {
                    assert(df[i] == s[i + 1]);
                }
                assert forall|j: int| 0 <= j < i + 1 implies !pred(#[trigger] s[j]) by {
                    if j > 0 {
                        assert(df[j - 1] == s[j]);
                        assert(!pred(df[j - 1]));
                    }
                }
            },
            None => {
                assert forall|j: int| 0 <= j < s.len() implies !pred(#[trigger] s[j]) by {
                    if j > 0 {
                        assert(df[j - 1] == s[j]);
                        assert(!pred(df[j - 1]));
                    }
                }
            },
        }
    }
}

/// A found first match pins [`spec_first_index`] down.
pub proof fn lemma_first_index_is<A>(s: Seq<A>, pred: spec_fn(A) -> bool, i: int)
    requires
        0 <= i < s.len(),
        pred(s[i]),
        forall|j: int| 0 <= j < i ==> !pred(#[trigger] s[j]),
    ensures
        spec_first_index(s, pred) == Some(i),
{
    lemma_first_index_properties(s, pred);
}

/// No match anywhere pins [`spec_first_index`] to `None`.
pub proof fn lemma_first_index_none<A>(s: Seq<A>, pred: spec_fn(A) -> bool)
    requires
        forall|j: int| 0 <= j < s.len() ==> !pred(#[trigger] s[j]),
    ensures
        spec_first_index(s, pred) is None,
{
    lemma_first_index_properties(s, pred);
}

/// Matches a property pair whose key is `key`.
pub open spec fn key_pred(key: Seq<char>) -> spec_fn((Seq<char>, Seq<char>)) -> bool {
    |p: (Seq<char>, Seq<char>)| p.0 == key
}

/// Matches a label equal to `l`.
pub open spec fn label_pred(l: Seq<char>) -> spec_fn(Seq<char>) -> bool {
    |x: Seq<char>| x == l
}

/// The value of the first property with the given key.
pub open spec fn spec_get(props: Seq<(Seq<char>, Seq<char>)>, key: Seq<char>) -> Option<Seq<char>> {
    match spec_first_index(props, key_pred(key)) {
        None => None,
        Some(i) => Some(props[i].1),
    }
}

/// Removing the first occurrence of a label: whether one was found, and the rest.
pub open spec fn spec_remove_label(labels: Seq<Seq<char>>, l: Seq<char>) -> (bool, Seq<Seq<char>>) {
    match spec_first_index(labels, label_pred(l)) {
        None => (false, labels),
        Some(i) => (true, labels.remove(i)),
    }
}

/// Updating the first property with the given key: whether one was found, and the result.
pub open spec fn spec_update_prop(
    props: Seq<(Seq<char>, Seq<char>)>,
    key: Seq<char>,
    value: Seq<char>,
) -> (bool, Seq<(Seq<char>, Seq<char>)>) {
    match spec_first_index(props, key_pred(key)) {
        None => (false, props),
        Some(i) => (true, props.update(i, (props[i].0, value))),
    }
}

/// Updating the first property with the given key, or appending a fresh pair.
pub open spec fn spec_update_or_add_prop(
    props: Seq<(Seq<char>, Seq<char>)>,
    key: Seq<char>,
    value: Seq<char>,
) -> Seq<(Seq<char>, Seq<char>)> {
    match spec_first_index(props, key_pred(key)) {
        None => props.push((key, value)),
        Some(i) => props.update(i, (props[i].0, value)),
    }
}

/// Removing the first property with the given key.
pub open spec fn spec_remove_prop(props: Seq<(Seq<char>, Seq<char>)>, key: Seq<char>) -> (
    bool,
    Seq<(Seq<char>, Seq<char>)>,
) {
    match spec_first_index(props, key_pred(key)) {
        None => (false, props),
        Some(i) => (true, props.remove(i)),
    }
}

fn find_prop_index(props: &Vec<(String, String)>, key: &str) -> (r: Option<usize>)
    ensures
        spec_first_index(props.deep_view(), key_pred(key@)) == match r {
            Some(i) => Some(i as int),
            None => None::<int>,
        },
        r is Some ==> r->0 < props.len(),
{
    let ghost pred = key_pred(key@);
    let mut i: usize = 0;
    while i < props.len()
        invariant
            0 <= i <= props.len(),
            forall|j: int| 0 <= j < i ==> !pred(#[trigger] props.deep_view()[j]),
            pred == key_pred(key@),
        decreases props.len() - i,
    {
        if str_eq(props[i].0.as_str(), key) {
            proof {
                lemma_first_index_is(props.deep_view(), pred, i as int);
            }
            return Some(i);
        }
        i = i + 1;
    }
    proof {
        lemma_first_index_none(props.deep_view(), pred);
    }
    None
}

fn find_label_index(labels: &Vec<String>, l: &str) -> (r: Option<usize>)
    ensures
        spec_first_index(labels.deep_view(), label_pred(l@)) == match r {
            Some(i) => Some(i as int),
            None => None::<int>,
        },
        r is Some ==> r->0 < labels.len(),
{
    let ghost pred = label_pred(l@);
    let mut i: usize = 0;
    while i < labels.len()
        invariant
            0 <= i <= labels.len(),
            forall|j: int| 0 <= j < i ==> !pred(#[trigger] labels.deep_view()[j]),
            pred == label_pred(l@),
        decreases labels.len() - i,
    {
        if str_eq(labels[i].as_str(), l) {
            proof {
                lemma_first_index_is(labels.deep_view(), pred, i as int);
            }
            return Some(i);
        }
        i = i + 1;
    }
    proof {
        lemma_first_index_none(labels.deep_view(), pred);
    }
    None
}

impl Inner {
    /// Builds an inner from labels and properties.
    pub fn new(labels: Vec<String>, properties: Vec<(String, String)>) -> (res: Self)
        ensures
            res@ == (InnerView {
                labels: labels.deep_view(),
                properties: properties.deep_view(),
            }),
    {
        Inner { labels, properties }
    }

    /// The labels, in stored order.
    pub fn labels(&self) -> (r: &Vec<String>)
        ensures
            r.deep_view() == self@.labels,
    {
        &self.labels
    }

    /// The properties, in stored order.
    pub fn properties(&self) -> (r: &Vec<(String, String)>)
        ensures
            r.deep_view() == self@.properties,
    {
        &self.properties
    }

    /// The value of the first property with the given key.
    pub fn get(&self, key: &str) -> (r: Option<&String>)
        ensures
            match r {
                Some(v) => spec_get(self@.properties, key@) == Some(v@),
                None => spec_get(self@.properties, key@) is None,
            },
    {
        match find_prop_index(&self.properties, key) {
            Some(i) => Some(&self.properties[i].1),
            None => None,
        }
    }

    /// Appends a label.
    pub fn add_label(&mut self, label: String)
        ensures
            final(self)@ == (InnerView {
                labels: old(self)@.labels.push(label@),
                ..old(self)@
            }),
    {
        self.labels.push(label);
    }

    /// Removes the first occurrence of a label; reports whether one was found.
    pub fn remove_label(&mut self, label: &str) -> (r: bool)
        ensures
            ({
                let (removed, labels) = spec_remove_label(old(self)@.labels, label@);
                r == removed && final(self)@.labels == labels && final(self)@.properties == old(
                    self,
                )@.properties
            }),
    {
        match find_label_index(&self.labels, label) {
            Some(i) => {
                let ghost prev = self.labels.deep_view();
                self.labels.remove(i);
                proof {
                    assert(self.labels.deep_view() =~= prev.remove(i as int));
                }
                true
            },
            None => false,
        }
    }

    /// Appends a property pair.
    pub fn add_property(&mut self, key: String, value: String)
        ensures
            final(self)@ == (InnerView {
                properties: old(self)@.properties.push((key@, value@)),
                ..old(self)@
            }),
    {
        self.properties.push((key, value));
    }

    /// Overwrites the value of the first property with the given key;
    /// reports whether one was found.
    pub fn update_property(&mut self, key: &str, value: String) -> (r: bool)
        ensures
            ({
                let (updated, props) = spec_update_prop(old(self)@.properties, key@, value@);
                r == updated && final(self)@.properties == props && final(self)@.labels == old(
                    self,
                )@.labels
            }),
    {
        match find_prop_index(&self.properties, key) {
            Some(i) => {
                let ghost prev = self.properties.deep_view();
                let k = self.properties[i].0.clone();
                self.properties.remove(i);
                self.properties.insert(i, (k, value));
                proof {
                    assert(self.properties.deep_view() =~= prev.update(
                        i as int,
                        (prev[i as int].0, value@),
                    ));
                }
                true
            },
            None => false,
        }
    }

    /// Overwrites the first property with the given key, or appends it.
    pub fn update_or_add_property(&mut self, key: &str, value: String)
        ensures
            final(self)@ == (InnerView {
                properties: spec_update_or_add_prop(old(self)@.properties, key@, value@),
                ..old(self)@
            }),
    {
        match find_prop_index(&self.properties, key) {
            Some(i) => {
                let ghost prev = self.properties.deep_view();
                let k = self.properties[i].0.clone();
                self.properties.remove(i);
                self.properties.insert(i, (k, value));
                proof {
                    assert(self.properties.deep_view() =~= prev.update(
                        i as int,
                        (prev[i as int].0, value@),
                    ));
                }
            },
            None => {
                self.properties.push((key.to_owned(), value));
            },
        }
    }

    /// Removes the first property with the given key; reports whether one was
    /// found.
    pub fn remove_property(&mut self, key: &str) -> (r: bool)
        ensures
            ({
                let (removed, props) = spec_remove_prop(old(self)@.properties, key@);
                r == removed && final(self)@.properties == props && final(self)@.labels == old(
                    self,
                )@.labels
            }),
    {
        match find_prop_index(&self.properties, key) {
            Some(i) => {
                let ghost prev = self.properties.deep_view();
                self.properties.remove(i);
                proof {
                    assert(self.properties.deep_view() =~= prev.remove(i as int));
                }
                true
            },
            None => false,
        }
    }

    /// Turns the inner back into an anonymous node pattern.
    pub fn to_node(&self) -> (r: Node)
        ensures
            r@ == (EntityView {
                var_name: None,
                labels: self@.labels,
                properties: self@.properties,
            }),
    {
        Node::new(None, clone_string_vec(&self.labels), clone_prop_vec(&self.properties))
    }
}

fn string_vecs_equal(a: &Vec<String>, b: &Vec<String>) -> (r: bool)
    ensures
        r == (a.deep_view() == b.deep_view()),
{
    if a.len() != b.len() {
        proof {
            assert(a.deep_view().len() == a.len());
            assert(b.deep_view().len() == b.len());
        }
        return false;
    }
    let mut i: usize = 0;
    while i < a.len()
        invariant
            0 <= i <= a.len(),
            a.len() == b.len(),
            forall|j: int| 0 <= j < i ==> #[trigger] a.deep_view()[j] == b.deep_view()[j],
        decreases a.len() - i,
    {
        if !str_eq(a[i].as_str(), b[i].as_str()) {
            proof {
                if a.deep_view() == b.deep_view() {
                    assert(a.deep_view()[i as int] == b.deep_view()[i as int]);
                }
            }
            return false;
        }
        i = i + 1;
    }
    proof {
        assert(a.deep_view() =~= b.deep_view());
    }
    true
}

fn prop_vecs_equal(a: &Vec<(String, String)>, b: &Vec<(String, String)>) -> (r: bool)
    ensures
        r == (a.deep_view() == b.deep_view()),
{
    if a.len() != b.len() {
        proof {
            assert(a.deep_view().len() == a.len());
            assert(b.deep_view().len() == b.len());
        }
        return false;
    }
    let mut i: usize = 0;
    while i < a.len()
        invariant
            0 <= i <= a.len(),
            a.len() == b.len(),
            forall|j: int| 0 <= j < i ==> #[trigger] a.deep_view()[j] == b.deep_view()[j],
        decreases a.len() - i,
    {
        if !(str_eq(a[i].0.as_str(), b[i].0.as_str()) && str_eq(a[i].1.as_str(), b[i].1.as_str())) {
            proof {
                if a.deep_view() == b.deep_view() {
                    assert(a.deep_view()[i as int] == b.deep_view()[i as int]);
                }
            }
            return false;
        }
        i = i + 1;
    }
    proof {
        assert(a.deep_view() =~= b.deep_view());
    }
    true
}

impl PartialEq for Inner {
    /// Order-insensitive equality: two inners are equal exactly when they
    /// carry the same multiset of labels and the same multiset of
    /// key/value pairs.
    fn eq(&self, other: &Self) -> (r: bool) {
        let my_labels = sort_strings(&self.labels);
        let other_labels = sort_strings(&other.labels);
        if !string_vecs_equal(&my_labels, &other_labels) {
            proof {
                crate::strorder::lemma_string_order_total();
                self@.labels.lemma_sort_by_ensures(crate::strorder::string_order());
                other@.labels.lemma_sort_by_ensures(crate::strorder::string_order());
                if self@.labels.to_multiset() == other@.labels.to_multiset() {
                    vstd::seq_lib::lemma_sorted_unique(
                        self@.labels.sort_by(crate::strorder::string_order()),
                        other@.labels.sort_by(crate::strorder::string_order()),
                        crate::strorder::string_order(),
                    );
                }
            }
            return false;
        }
        let my_props = sort_props(&self.properties);
        let other_props = sort_props(&other.properties);
        let r = prop_vecs_equal(&my_props, &other_props);
        proof {
            crate::strorder::lemma_string_order_total();
            crate::strorder::lemma_pair_order_total();
            self@.labels.lemma_sort_by_ensures(crate::strorder::string_order());
            other@.labels.lemma_sort_by_ensures(crate::strorder::string_order());
            self@.properties.lemma_sort_by_ensures(crate::strorder::pair_order());
            other@.properties.lemma_sort_by_ensures(crate::strorder::pair_order());
            if self@.properties.to_multiset() == other@.properties.to_multiset() {
                vstd::seq_lib::lemma_sorted_unique(
                    self@.properties.sort_by(crate::strorder::pair_order()),
                    other@.properties.sort_by(crate::strorder::pair_order()),
                    crate::strorder::pair_order(),
                );
            }
        }
        r
    }
}

impl vstd::std_specs::cmp::PartialEqSpecImpl for Inner {
    open spec fn obeys_eq_spec() -> bool {
        true
    }

    open spec fn eq_spec(&self, other: &Inner) -> bool {
        self@.labels.to_multiset() == other@.labels.to_multiset()
            && self@.properties.to_multiset() == other@.properties.to_multiset()
    }
}

impl Eq for Inner {

}

/// One result row: the inners matching one query's RETURN list.
pub struct Row {
    inners: Vec<Inner>,
}

impl View for Row {
    type V = Seq<InnerView>;

    closed spec fn view(&self) -> Seq<InnerView> {
        self.inners.deep_view()
    }
}

impl DeepView for Row {
    type V = Seq<InnerView>;

    open spec fn deep_view(&self) -> Seq<InnerView> {
        self.view()
    }
}

impl Clone for Row {
    fn clone(&self) -> (res: Self)
        ensures
            res@ == self@,
    {
        let mut inners: Vec<Inner> = Vec::new();
        let mut i: usize = 0;
        while i < self.inners.len()
            invariant
                0 <= i <= self.inners.len(),
                inners.deep_view() =~= self.inners.deep_view().subrange(0, i as int),
            decreases self.inners.len() - i,
        {
            let ghost prev = inners.deep_view();
            inners.push(self.inners[i].clone());
            proof {
                assert(inners.deep_view() =~= prev.push(self.inners.deep_view()[i as int]));
                assert(prev.push(self.inners.deep_view()[i as int]) =~= self.inners.deep_view()
                    .subrange(0, i + 1 as int));
            }
            i = i + 1;
        }
        proof {
            assert(self.inners.deep_view().subrange(0, self.inners.len() as int)
                =~= self.inners.deep_view());
        }
        Row { inners }
    }
}

impl Row {
    /// A row over the given inners.
    pub fn new(inners: Vec<Inner>) -> (res: Self)
        ensures
            res@ == inners.deep_view(),
    {
        Row { inners }
    }

    /// A row with no inners.
    pub fn new_empty() -> (res: Self)
        ensures
            res@ == Seq::<InnerView>::empty(),
    {
        let inners: Vec<Inner> = Vec::new();
        proof {
            assert(inners.deep_view() =~= Seq::<InnerView>::empty());
        }
        Row { inners }
    }

    /// The inners, in order.
    pub fn inners(&self) -> (r: &Vec<Inner>)
        ensures
            r.deep_view() == self@,
    {
        &self.inners
    }

    /// Appends one inner.
    pub fn push(&mut self, inner: Inner)
        ensures
            final(self)@ == old(self)@.push(inner@),
    {
        let ghost prev = self.inners.deep_view();
        self.inners.push(inner);
        proof {
            assert(self.inners.deep_view() =~= prev.push(self.inners.deep_view().last()));
        }
    }

    /// Whether the row has no inners.
    pub fn is_empty(&self) -> (r: bool)
        ensures
            r == (self@.len() == 0),
    {
        self.inners.is_empty()
    }
}

/// A full result: a sequence of rows.
pub struct Rows {
    rows: Vec<Row>,
}

impl View for Rows {
    type V = Seq<Seq<InnerView>>;

    closed spec fn view(&self) -> Seq<Seq<InnerView>> {
        self.rows.deep_view()
    }
}

impl DeepView for Rows {
    type V = Seq<Seq<InnerView>>;

    open spec fn deep_view(&self) -> Seq<Seq<InnerView>> {
        self.view()
    }
}

impl Clone for Rows {
    fn clone(&self) -> (res: Self)
        ensures
            res@ == self@,
    {
        let mut rows: Vec<Row> = Vec::new();
        let mut i: usize = 0;
        while i < self.rows.len()
            invariant
                0 <= i <= self.rows.len(),
                rows.deep_view() =~= self.rows.deep_view().subrange(0, i as int),
            decreases self.rows.len() - i,
        {
            let ghost prev = rows.deep_view();
            rows.push(self.rows[i].clone());
            proof {
                assert(rows.deep_view() =~= prev.push(self.rows.deep_view()[i as int]));
                assert(prev.push(self.rows.deep_view()[i as int]) =~= self.rows.deep_view()
                    .subrange(0, i + 1 as int));
            }
            i = i + 1;
        }
        proof {
            assert(self.rows.deep_view().subrange(0, self.rows.len() as int)
                =~= self.rows.deep_view());
        }
        Rows { rows }
    }
}

impl Rows {
    /// A result over the given rows.
    pub fn new(rows: Vec<Row>) -> (res: Self)
        ensures
            res@ == rows.deep_view(),
    {
        Rows { rows }
    }

    /// A result with no rows.
    pub fn new_empty() -> (res: Self)
        ensures
            res@ == Seq::<Seq<InnerView>>::empty(),
    {
        let rows: Vec<Row> = Vec::new();
        proof {
            assert(rows.deep_view() =~= Seq::<Seq<InnerView>>::empty());
        }
        Rows { rows }
    }

    /// The rows, in order.
    pub fn rows(&self) -> (r: &Vec<Row>)
        ensures
            r.deep_view() == self@,
    {
        &self.rows
    }

    /// Appends one row.
    pub fn push(&mut self, row: Row)
        ensures
            final(self)@ == old(self)@.push(row@),
    {
        let ghost prev = self.rows.deep_view();
        self.rows.push(row);
        proof {
            assert(self.rows.deep_view() =~= prev.push(self.rows.deep_view().last()));
        }
    }

    /// Whether the result has no rows.
    pub fn is_empty(&self) -> (r: bool)
        ensures
            r == (self@.len() == 0),
    {
        self.rows.is_empty()
    }
}

} // verus!

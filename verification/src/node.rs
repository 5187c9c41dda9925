use vstd::prelude::*;
use vstd::string::*;

use crate::util::{clone_opt_string, clone_prop_vec, clone_string_vec};

verus! {

/// A node pattern: optional variable name, labels, and string properties.
///
/// Order of labels and properties is preserved for client-facing
/// manipulation; it is canonicalized (sorted) only for hashing.
pub struct Node {
    pub var_name: Option<String>,
    pub labels: Vec<String>,
    pub properties: Vec<(String, String)>,
}

/// A relation pattern has exactly the shape of a node pattern; it only
/// renders with brackets instead of parentheses.
pub type Relation = Node;

/// The mathematical model of a node or relation pattern.
#[verifier::ext_equal]
pub ghost struct EntityView {
    pub var_name: Option<Seq<char>>,
    pub labels: Seq<Seq<char>>,
    pub properties: Seq<(Seq<char>, Seq<char>)>,
}

impl View for Node {
    type V = EntityView;

    open spec fn view(&self) -> EntityView {
        EntityView {
            var_name: self.var_name.deep_view(),
            labels: self.labels.deep_view(),
            properties: self.properties.deep_view(),
        }
    }
}

impl DeepView for Node {
    type V = EntityView;

    open spec fn deep_view(&self) -> EntityView {
        self.view()
    }
}

impl Clone for Node {
    fn clone(&self) -> (res: Self)
        ensures
            res@ == self@,
    {
        Node {
            var_name: clone_opt_string(&self.var_name),
            labels: clone_string_vec(&self.labels),
            properties: clone_prop_vec(&self.properties),
        }
    }
}

/// The `:label1:label2` segment of an entity rendering.
pub open spec fn spec_render_labels(labels: Seq<Seq<char>>) -> Seq<char>
    decreases labels.len(),
{
    if labels.len() == 0 {
        Seq::empty()
    } else {
        spec_render_labels(labels.drop_last()) + ":"@ + labels.last()
    }
}

/// One `key: 'value'` piece of a property block.
pub open spec fn spec_render_prop(p: (Seq<char>, Seq<char>)) -> Seq<char> {
    p.0 + ": '"@ + p.1 + "'"@
}

/// The comma-separated inside of a property block.
pub open spec fn spec_render_props(props: Seq<(Seq<char>, Seq<char>)>) -> Seq<char>
    decreases props.len(),
{
    if props.len() == 0 {
        Seq::empty()
    } else if props.len() == 1 {
        spec_render_prop(props[0])
    } else {
        spec_render_props(props.drop_last()) + ", "@ + spec_render_prop(props.last())
    }
}

/// The inside of an entity rendering: variable name, labels, property block.
pub open spec fn spec_render_entity_body(e: EntityView) -> Seq<char> {
    (match e.var_name {
        Some(v) => v,
        None => Seq::empty(),
    }) + spec_render_labels(e.labels) + (if e.properties.len() == 0 {
        Seq::<char>::empty()
    } else {
        " {"@ + spec_render_props(e.properties) + "}"@
    })
}

/// A node rendering: `(var:L1:L2 {k1: 'v1', k2: 'v2'})`.
pub open spec fn spec_render_node(e: EntityView) -> Seq<char> {
    "("@ + spec_render_entity_body(e) + ")"@
}

/// A relation rendering: `[var:L1 {k1: 'v1'}]`.
pub open spec fn spec_render_relation(e: EntityView) -> Seq<char> {
    "["@ + spec_render_entity_body(e) + "]"@
}

fn render_labels(labels: &Vec<String>) -> (r: String)
    ensures
        r@ == spec_render_labels(labels.deep_view()),
{
    let mut res = String::new();
    let mut i: usize = 0;
    while i < labels.len()
        invariant
            0 <= i <= labels.len(),
            res@ == spec_render_labels(labels.deep_view().subrange(0, i as int)),
        decreases labels.len() - i,
    {
        res.append(":");
        res.append(labels[i].as_str());
        proof {
            let views = labels.deep_view();
            assert(views.subrange(0, i + 1 as int).drop_last() =~= views.subrange(0, i as int));
            assert(views.subrange(0, i + 1 as int).last() == views[i as int]);
        }
        i = i + 1;
    }
    proof {
        assert(labels.deep_view().subrange(0, labels.len() as int) =~= labels.deep_view());
    }
    res
}

fn render_props(props: &Vec<(String, String)>) -> (r: String)
    ensures
        r@ == spec_render_props(props.deep_view()),
{
    let mut res = String::new();
    let mut i: usize = 0;
    while i < props.len()
        invariant
            0 <= i <= props.len(),
            res@ == spec_render_props(props.deep_view().subrange(0, i as int)),
        decreases props.len() - i,
    {
        if i > 0 {
            res.append(", ");
        }
        let p = &props[i];
        res.append(p.0.as_str());
        res.append(": '");
        res.append(p.1.as_str());
        res.append("'");
        proof {
            let views = props.deep_view();
            assert(views.subrange(0, i + 1 as int).drop_last() =~= views.subrange(0, i as int));
            assert(views.subrange(0, i + 1 as int).last() == views[i as int]);
            if i == 0 {
                assert(res@ =~= spec_render_props(views.subrange(0, i + 1 as int)));
            }
        }
        i = i + 1;
    }
    proof {
        assert(props.deep_view().subrange(0, props.len() as int) =~= props.deep_view());
    }
    res
}

fn render_entity_body(e: &Node) -> (r: String)
    ensures
        r@ == spec_render_entity_body(e@),
{
    let mut res = String::new();
    match &e.var_name {
        Some(v) => res.append(v.as_str()),
        None => (),
    }
    let labels = render_labels(&e.labels);
    res.append(labels.as_str());
    if e.properties.len() > 0 {
        res.append(" {");
        let props = render_props(&e.properties);
        res.append(props.as_str());
        res.append("}");
    }
    res
}

impl Node {
    /// Builds a node pattern from its parts.
    pub fn new(
        var_name: Option<String>,
        labels: Vec<String>,
        properties: Vec<(String, String)>,
    ) -> (res: Self)
        ensures
            res@ == (EntityView {
                var_name: var_name.deep_view(),
                labels: labels.deep_view(),
                properties: properties.deep_view(),
            }),
    {
        Node { var_name, labels, properties }
    }

    /// Builds a node pattern carrying only a variable name.
    pub fn new_with_var(var: &str) -> (res: Self)
        ensures
            res@ == (EntityView {
                var_name: Some(var@),
                labels: Seq::empty(),
                properties: Seq::empty(),
            }),
    {
        Node { var_name: Some(var.to_owned()), labels: Vec::new(), properties: Vec::new() }
    }

    /// The variable name, if one was given.
    pub fn var_name(&self) -> (r: Option<&String>)
        ensures
            match r {
                Some(v) => self@.var_name == Some(v@),
                None => self@.var_name is None,
            },
    {
        self.var_name.as_ref()
    }

    /// Appends one property pair.
    pub fn add_property(&mut self, key: String, value: String)
        ensures
            final(self)@ == (EntityView {
                properties: old(self)@.properties.push((key@, value@)),
                ..old(self)@
            }),
    {
        self.properties.push((key, value));
    }

    pub(crate) fn to_query_string(&self) -> (r: String)
        ensures
            r@ == spec_render_node(self@),
    {
        let mut res = String::from_str("(");
        let body = render_entity_body(self);
        res.append(body.as_str());
        res.append(")");
        res
    }

    pub(crate) fn to_relation_query_string(&self) -> (r: String)
        ensures
            r@ == spec_render_relation(self@),
    {
        let mut res = String::from_str("[");
        let body = render_entity_body(self);
        res.append(body.as_str());
        res.append("]");
        res
    }
}

} // verus!

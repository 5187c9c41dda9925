use vstd::prelude::*;
use vstd::string::*;

verus! {

/// One entry of a RETURN/SET/REMOVE/DELETE list.
pub enum Item {
    /// References a whole node or relation by its variable name.
    Var(String),
    /// Names a label on an entity, rendered `var:label`.
    VarWithLabel(String, String),
    /// Names a property key, rendered `var.key`.
    VarWithKey(String, String),
    /// Names a key/value assignment, rendered `var.key = 'value'`.
    VarWithKeyValue(String, String, String),
}

/// The mathematical model of an [`Item`].
pub ghost enum ItemView {
    Var(Seq<char>),
    VarWithLabel(Seq<char>, Seq<char>),
    VarWithKey(Seq<char>, Seq<char>),
    VarWithKeyValue(Seq<char>, Seq<char>, Seq<char>),
}

impl View for Item {
    type V = ItemView;

    open spec fn view(&self) -> ItemView {
        match self {
            Item::Var(v) => ItemView::Var(v@),
            Item::VarWithLabel(v, l) => ItemView::VarWithLabel(v@, l@),
            Item::VarWithKey(v, k) => ItemView::VarWithKey(v@, k@),
            Item::VarWithKeyValue(v, k, val) => ItemView::VarWithKeyValue(v@, k@, val@),
        }
    }
}

impl DeepView for Item {
    type V = ItemView;

    open spec fn deep_view(&self) -> ItemView {
        self.view()
    }
}

impl ItemView {
    /// The variable name this item refers to.
    pub open spec fn var_of(self) -> Seq<char> {
        match self {
            ItemView::Var(v) => v,
            ItemView::VarWithLabel(v, _) => v,
            ItemView::VarWithKey(v, _) => v,
            ItemView::VarWithKeyValue(v, _, _) => v,
        }
    }
}

impl Clone for Item {
    fn clone(&self) -> (res: Self)
        ensures
            res@ == self@,
    {
        match self {
            Item::Var(v) => Item::Var(v.clone()),
            Item::VarWithLabel(v, l) => Item::VarWithLabel(v.clone(), l.clone()),
            Item::VarWithKey(v, k) => Item::VarWithKey(v.clone(), k.clone()),
            Item::VarWithKeyValue(v, k, val) => Item::VarWithKeyValue(
                v.clone(),
                k.clone(),
                val.clone(),
            ),
        }
    }
}

/// The backend-dialect text of a single item.
pub open spec fn spec_render_item(it: ItemView) -> Seq<char> {
    match it {
        ItemView::Var(v) => v,
        ItemView::VarWithLabel(v, l) => v + ":"@ + l,
        ItemView::VarWithKey(v, k) => v + "."@ + k,
        ItemView::VarWithKeyValue(v, k, val) => v + "."@ + k + " = '"@ + val + "'"@,
    }
}

/// The backend-dialect text of an item list, comma-separated.
pub open spec fn spec_render_items(items: Seq<ItemView>) -> Seq<char>
    decreases items.len(),
{
    if items.len() == 0 {
        Seq::empty()
    } else if items.len() == 1 {
        spec_render_item(items[0])
    } else {
        spec_render_items(items.drop_last()) + ", "@ + spec_render_item(items.last())
    }
}

impl Item {
    pub(crate) fn to_query_string(item: &Item) -> (r: String)
        ensures
            r@ == spec_render_item(item@),
    {
        match item {
            Item::Var(var_name) => var_name.clone(),
            Item::VarWithLabel(var_name, label) => {
                let mut s = var_name.clone();
                s.append(":");
                s.append(label.as_str());
                s
            },
            Item::VarWithKey(var_name, key) => {
                let mut s = var_name.clone();
                s.append(".");
                s.append(key.as_str());
                s
            },
            Item::VarWithKeyValue(var_name, key, value) => {
                let mut s = var_name.clone();
                s.append(".");
                s.append(key.as_str());
                s.append(" = '");
                s.append(value.as_str());
                s.append("'");
                s
            },
        }
    }
}

/// Renders an item list as comma-separated text.
pub(crate) fn render_item_list(items: &Vec<Item>) -> (r: String)
    ensures
        r@ == spec_render_items(items.deep_view()),
{
    let mut res = String::new();
    let mut i: usize = 0;
    while i < items.len()
        invariant
            0 <= i <= items.len(),
            res@ == spec_render_items(items.deep_view().subrange(0, i as int)),
        decreases items.len() - i,
    {
        if i > 0 {
            res.append(", ");
        }
        let piece = Item::to_query_string(&items[i]);
        res.append(piece.as_str());
        proof {
            let views = items.deep_view();
            assert(views.subrange(0, i + 1 as int).drop_last() =~= views.subrange(0, i as int));
            assert(views.subrange(0, i + 1 as int).last() == views[i as int]);
            if i == 0 {
                assert(res@ =~= spec_render_items(views.subrange(0, i + 1 as int)));
            }
        }
        i = i + 1;
    }
    proof {
        assert(items.deep_view().subrange(0, items.len() as int) =~= items.deep_view());
    }
    res
}

} // verus!

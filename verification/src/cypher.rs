use vstd::prelude::*;
use vstd::string::*;

use crate::error::Error;
use crate::item::{render_item_list, spec_render_items, Item, ItemView};
use crate::node::{
    spec_render_node, spec_render_relation, EntityView, Node, Relation,
};

verus! {

/// A single structured graph query.
pub struct CypherQuery {
    pub node: Option<Node>,
    pub relation: Option<Relation>,
    pub next_node: Option<Node>,
    pub use_match: bool,
    pub use_create: bool,
    pub return_list: Option<Vec<Item>>,
    pub set_list: Option<Vec<Item>>,
    pub remove_list: Option<Vec<Item>>,
    pub delete_list: Option<(Vec<Item>, bool)>,
    pub find_shortest_path: bool,
}

/// The mathematical model of a query.
#[verifier::ext_equal]
pub ghost struct QueryView {
    pub node: Option<EntityView>,
    pub relation: Option<EntityView>,
    pub next_node: Option<EntityView>,
    pub use_match: bool,
    pub use_create: bool,
    pub return_list: Option<Seq<ItemView>>,
    pub set_list: Option<Seq<ItemView>>,
    pub remove_list: Option<Seq<ItemView>>,
    pub delete_list: Option<(Seq<ItemView>, bool)>,
    pub find_shortest_path: bool,
}

impl View for CypherQuery {
    type V = QueryView;

    open spec fn view(&self) -> QueryView {
        QueryView {
            node: self.node.deep_view(),
            relation: self.relation.deep_view(),
            next_node: self.next_node.deep_view(),
            use_match: self.use_match,
            use_create: self.use_create,
            return_list: self.return_list.deep_view(),
            set_list: self.set_list.deep_view(),
            remove_list: self.remove_list.deep_view(),
            delete_list: self.delete_list.deep_view(),
            find_shortest_path: self.find_shortest_path,
        }
    }
}

impl DeepView for CypherQuery {
    type V = QueryView;

    open spec fn deep_view(&self) -> QueryView {
        self.view()
    }
}

/// The class a valid query falls in.
#[derive(Clone, Copy, Debug, PartialEq, Eq, Structural)]
pub enum CRUDtype {
    Create,
    Read,
    Update,
    Delete,
    FindShortestPath,
}

fn clone_opt_node(v: &Option<Node>) -> (res: Option<Node>)
    ensures
        res.deep_view() == v.deep_view(),
{
    match v {
        Some(n) => Some(n.clone()),
        None => None,
    }
}

fn clone_item_vec(v: &Vec<Item>) -> (res: Vec<Item>)
    ensures
        res.deep_view() == v.deep_view(),
{
    let mut res: Vec<Item> = Vec::new();
    let mut i: usize = 0;
    while i < v.len()
        invariant
            0 <= i <= v.len(),
            res.deep_view() =~= v.deep_view().subrange(0, i as int),
        decreases v.len() - i,
    {
        let ghost prev = res.deep_view();
        res.push(v[i].clone());
        proof {
            assert(res.deep_view() =~= prev.push(v.deep_view()[i as int]));
            assert(prev.push(v.deep_view()[i as int]) =~= v.deep_view().subrange(0, i + 1 as int));
        }
        i = i + 1;
    }
    proof {
        assert(v.deep_view().subrange(0, v.len() as int) =~= v.deep_view());
    }
    res
}

pub(crate) fn clone_opt_item_vec(v: &Option<Vec<Item>>) -> (res: Option<Vec<Item>>)
    ensures
        res.deep_view() == v.deep_view(),
{
    match v {
        Some(l) => Some(clone_item_vec(l)),
        None => None,
    }
}

impl Clone for CypherQuery {
    fn clone(&self) -> (res: Self)
        ensures
            res@ == self@,
    {
        CypherQuery {
            node: clone_opt_node(&self.node),
            relation: clone_opt_node(&self.relation),
            next_node: clone_opt_node(&self.next_node),
            use_match: self.use_match,
            use_create: self.use_create,
            return_list: clone_opt_item_vec(&self.return_list),
            set_list: clone_opt_item_vec(&self.set_list),
            remove_list: clone_opt_item_vec(&self.remove_list),
            delete_list: match &self.delete_list {
                Some((l, detach)) => Some((clone_item_vec(l), *detach)),
                None => None,
            },
            find_shortest_path: self.find_shortest_path,
        }
    }
}

/// A `RETURN`/`SET`/`REMOVE` tail: nothing when the list is absent, an error
/// when it renders to nothing, else the prefix followed by the joined items.
pub open spec fn spec_tail(prefix: Seq<char>, l: Option<Seq<ItemView>>) -> Option<Seq<char>> {
    match l {
        None => Some(Seq::empty()),
        Some(items) => if spec_render_items(items).len() == 0 {
            None
        } else {
            Some(prefix + spec_render_items(items))
        },
    }
}

/// The `DELETE`/`DETACH DELETE` tail.
pub open spec fn spec_delete_tail(dl: Option<(Seq<ItemView>, bool)>) -> Option<Seq<char>> {
    match dl {
        None => Some(Seq::empty()),
        Some((items, detach)) => if spec_render_items(items).len() == 0 {
            None
        } else {
            Some(
                (if detach {
                    "DETACH DELETE "@
                } else {
                    "DELETE "@
                }) + spec_render_items(items),
            )
        },
    }
}

// The ten renderable query shapes, mutually exclusive.
pub open spec fn shape_create_single(q: QueryView) -> bool {
    q.node is Some && q.relation is None && q.next_node is None && !q.use_match && q.use_create
        && q.set_list is None && q.remove_list is None && q.delete_list is None
        && !q.find_shortest_path
}

pub open spec fn shape_create_pattern(q: QueryView) -> bool {
    q.node is Some && q.relation is Some && q.next_node is Some && !q.use_match && q.use_create
        && q.set_list is None && q.remove_list is None && q.delete_list is None
        && !q.find_shortest_path
}

pub open spec fn shape_match_create(q: QueryView) -> bool {
    q.node is Some && q.relation is Some && q.next_node is Some && q.use_match && q.use_create
        && q.set_list is None && q.remove_list is None && q.delete_list is None
        && !q.find_shortest_path
}

pub open spec fn shape_read_single(q: QueryView) -> bool {
    q.node is Some && q.relation is None && q.next_node is None && q.use_match && !q.use_create
        && q.return_list is Some && q.set_list is None && q.remove_list is None
        && q.delete_list is None && !q.find_shortest_path
}

pub open spec fn shape_read_two(q: QueryView) -> bool {
    q.node is Some && q.relation is None && q.next_node is Some && q.use_match && !q.use_create
        && q.return_list is Some && q.set_list is None && q.remove_list is None
        && q.delete_list is None && !q.find_shortest_path
}

pub open spec fn shape_read_pattern(q: QueryView) -> bool {
    q.node is Some && q.relation is Some && q.next_node is Some && q.use_match && !q.use_create
        && q.return_list is Some && q.set_list is None && q.remove_list is None
        && q.delete_list is None && !q.find_shortest_path
}

pub open spec fn shape_update_node(q: QueryView) -> bool {
    q.node is Some && q.relation is None && q.next_node is None && q.use_match && !q.use_create
        && q.delete_list is None && !q.find_shortest_path && !(q.return_list is Some
        && q.set_list is None && q.remove_list is None)
}

pub open spec fn shape_update_pattern(q: QueryView) -> bool {
    q.node is Some && q.relation is Some && q.next_node is Some && q.use_match && !q.use_create
        && q.delete_list is None && !q.find_shortest_path && !(q.return_list is Some
        && q.set_list is None && q.remove_list is None)
}

pub open spec fn shape_delete_node(q: QueryView) -> bool {
    q.node is Some && q.relation is None && q.next_node is None && q.use_match && !q.use_create
        && q.set_list is None && q.remove_list is None && q.delete_list is Some
        && !q.find_shortest_path
}

pub open spec fn shape_delete_pattern(q: QueryView) -> bool {
    q.node is Some && q.relation is Some && q.next_node is Some && q.use_match && !q.use_create
        && q.set_list is None && q.remove_list is None && q.delete_list is Some
        && !q.find_shortest_path
}

/// Whether the query matches any renderable shape at all.
pub open spec fn spec_is_render_shape(q: QueryView) -> bool {
    shape_create_single(q) || shape_create_pattern(q) || shape_match_create(q)
        || shape_read_single(q) || shape_read_two(q) || shape_read_pattern(q)
        || shape_update_node(q) || shape_update_pattern(q) || shape_delete_node(q)
        || shape_delete_pattern(q)
}

/// The backend-dialect text of a query, or `None` when it cannot be rendered.
pub open spec fn spec_render_query(q: QueryView) -> Option<Seq<char>> {
    let ret = spec_tail("RETURN "@, q.return_list);
    if shape_create_single(q) {
        match ret {
            None => None,
            Some(r) => Some("CREATE "@ + spec_render_node(q.node->Some_0) + " "@ + r),
        }
    } else if shape_create_pattern(q) {
        match ret {
            None => None,
            Some(r) => Some(
                "CREATE "@ + spec_render_node(q.node->Some_0) + "-"@ + spec_render_relation(
                    q.relation->Some_0,
                ) + "->"@ + spec_render_node(q.next_node->Some_0) + " "@ + r,
            ),
        }
    } else if shape_match_create(q) {
        if q.node->Some_0.var_name is None || q.next_node->Some_0.var_name is None {
            None
        } else {
            match ret {
                None => None,
                Some(r) => Some(
                    "MATCH "@ + spec_render_node(q.node->Some_0) + ", "@ + spec_render_node(
                        q.next_node->Some_0,
                    ) + " CREATE ("@ + q.node->Some_0.var_name->Some_0 + ")-"@
                        + spec_render_relation(q.relation->Some_0) + "->("@
                        + q.next_node->Some_0.var_name->Some_0 + ") "@ + r,
                ),
            }
        }
    } else if shape_read_single(q) {
        match ret {
            None => None,
            Some(r) => Some("MATCH "@ + spec_render_node(q.node->Some_0) + " "@ + r),
        }
    } else if shape_read_two(q) {
        match ret {
            None => None,
            Some(r) => Some(
                "MATCH "@ + spec_render_node(q.node->Some_0) + ", "@ + spec_render_node(
                    q.next_node->Some_0,
                ) + " "@ + r,
            ),
        }
    } else if shape_read_pattern(q) {
        match ret {
            None => None,
            Some(r) => Some(
                "MATCH "@ + spec_render_node(q.node->Some_0) + "-"@ + spec_render_relation(
                    q.relation->Some_0,
                ) + "->"@ + spec_render_node(q.next_node->Some_0) + " "@ + r,
            ),
        }
    } else if shape_update_node(q) {
        match (spec_tail("REMOVE "@, q.remove_list), spec_tail("SET "@, q.set_list), ret) {
            (Some(rem), Some(st), Some(r)) => Some(
                "MATCH "@ + spec_render_node(q.node->Some_0) + " "@ + rem + " "@ + st + " "@ + r,
            ),
            _ => None,
        }
    } else if shape_update_pattern(q) {
        match (spec_tail("REMOVE "@, q.remove_list), spec_tail("SET "@, q.set_list), ret) {
            (Some(rem), Some(st), Some(r)) => Some(
                "MATCH "@ + spec_render_node(q.node->Some_0) + "-"@ + spec_render_relation(
                    q.relation->Some_0,
                ) + "->"@ + spec_render_node(q.next_node->Some_0) + " "@ + rem + " "@ + st + " "@
                    + r,
            ),
            _ => None,
        }
    } else if shape_delete_node(q) {
        match (spec_delete_tail(q.delete_list), ret) {
            (Some(del), Some(r)) => Some(
                "MATCH "@ + spec_render_node(q.node->Some_0) + " "@ + del + " "@ + r,
            ),
            _ => None,
        }
    } else if shape_delete_pattern(q) {
        match (spec_delete_tail(q.delete_list), ret) {
            (Some(del), Some(r)) => Some(
                "MATCH "@ + spec_render_node(q.node->Some_0) + "-"@ + spec_render_relation(
                    q.relation->Some_0,
                ) + "->"@ + spec_render_node(q.next_node->Some_0) + " "@ + del + " "@ + r,
            ),
            _ => None,
        }
    } else {
        None
    }
}

/// The error a failing rendering reports.
pub open spec fn spec_render_err(q: QueryView) -> Error {
    if !spec_is_render_shape(q) {
        Error::InvalidQuery
    } else if shape_match_create(q) && (q.node->Some_0.var_name is None
        || q.next_node->Some_0.var_name is None) {
        Error::MissingVarName
    } else {
        Error::EmptyItemList
    }
}

/// The class of a valid query, or `None` when its shape is invalid.
pub open spec fn spec_crud_type(q: QueryView) -> Option<CRUDtype> {
    let n = q.node is Some;
    let r = q.relation is Some;
    let m = q.next_node is Some;
    let ret = q.return_list is Some;
    let st = q.set_list is Some;
    let rem = q.remove_list is Some;
    let del = q.delete_list is Some;
    if !q.find_shortest_path && n && !del && ((!r && !m && !q.use_match || r && m) && q.use_create)
        && !st && !rem {
        Some(CRUDtype::Create)
    } else if !q.find_shortest_path && n && q.use_match && !q.use_create && ret && !st && !rem
        && !del && (!r && !m || !r && m || r && m) {
        Some(CRUDtype::Read)
    } else if !q.find_shortest_path && n && q.use_match && !q.use_create && !del && (st && !rem
        || !st && rem) && (!r && !m || r && m) {
        Some(CRUDtype::Update)
    } else if !q.find_shortest_path && n && q.use_match && !q.use_create && !st && !rem && del && (
    !r && !m || r && m) {
        Some(CRUDtype::Delete)
    } else if q.find_shortest_path && n && !r && m && q.use_match && !q.use_create && !ret && !st
        && !rem && !del {
        Some(CRUDtype::FindShortestPath)
    } else {
        None
    }
}

fn render_tail(prefix: &str, list: Option<&Vec<Item>>) -> (r: Result<String, Error>)
    ensures
        match spec_tail(prefix@, list.deep_view()) {
            Some(s) => r is Ok && r->Ok_0@ == s,
            None => r == Err::<String, Error>(Error::EmptyItemList),
        },
{
    match list {
        None => Ok(String::new()),
        Some(items) => {
            let joined = render_item_list(items);
            if joined.as_str().is_empty() {
                Err(Error::EmptyItemList)
            } else {
                let mut res = String::from_str(prefix);
                res.append(joined.as_str());
                Ok(res)
            }
        },
    }
}

impl CypherQuery {
    /// Renders the query into the backend dialect.
    ///
    /// Succeeds exactly on the renderable shapes, and then returns exactly
    /// the text [`spec_render_query`] describes.
    pub fn to_query_string(&self) -> (r: Result<String, Error>)
        ensures
            match spec_render_query(self@) {
                Some(s) => r is Ok && r->Ok_0@ == s,
                None => r is Err && r->Err_0 == spec_render_err(self@),
            },
    {
        let n = self.node.is_some();
        let rel = self.relation.is_some();
        let m = self.next_node.is_some();
        let ret_some = self.return_list.is_some();
        let st = self.set_list.is_some();
        let rem = self.remove_list.is_some();
        let del = self.delete_list.is_some();
        let um = self.use_match;
        let uc = self.use_create;
        let fsp = self.find_shortest_path;

        if n && !rel && !m && !um && uc && !st && !rem && !del && !fsp {
            // CREATE (n:...)
            let ret = match render_tail("RETURN ", self.return_list.as_ref()) {
                Ok(s) => s,
                Err(e) => {
                    return Err(e);
                },
            };
            let mut res = String::from_str("CREATE ");
            let node_str = self.node.as_ref().unwrap().to_query_string();
            res.append(node_str.as_str());
            res.append(" ");
            res.append(ret.as_str());
            Ok(res)
        } else if n && rel && m && !um && uc && !st && !rem && !del && !fsp {
            // CREATE (n:...)-[r:...]->(m:...)
            let ret = match render_tail("RETURN ", self.return_list.as_ref()) {
                Ok(s) => s,
                Err(e) => {
                    return Err(e);
                },
            };
            let mut res = String::from_str("CREATE ");
            let node_str = self.node.as_ref().unwrap().to_query_string();
            res.append(node_str.as_str());
            res.append("-");
            let rel_str = self.relation.as_ref().unwrap().to_relation_query_string();
            res.append(rel_str.as_str());
            res.append("->");
            let next_str = self.next_node.as_ref().unwrap().to_query_string();
            res.append(next_str.as_str());
            res.append(" ");
            res.append(ret.as_str());
            Ok(res)
        } else if n && rel && m && um && uc && !st && !rem && !del && !fsp {
            // MATCH (n:...), (m:...) CREATE (n)-[r:...]->(m)
            let node = self.node.as_ref().unwrap();
            let next = self.next_node.as_ref().unwrap();
            if node.var_name.is_none() || next.var_name.is_none() {
                return Err(Error::MissingVarName);
            }
            let ret = match render_tail("RETURN ", self.return_list.as_ref()) {
                Ok(s) => s,
                Err(e) => {
                    return Err(e);
                },
            };
            let mut res = String::from_str("MATCH ");
            let node_str = node.to_query_string();
            res.append(node_str.as_str());
            res.append(", ");
            let next_str = next.to_query_string();
            res.append(next_str.as_str());
            res.append(" CREATE (");
            res.append(node.var_name.as_ref().unwrap().as_str());
            res.append(")-");
            let rel_str = self.relation.as_ref().unwrap().to_relation_query_string();
            res.append(rel_str.as_str());
            res.append("->(");
            res.append(next.var_name.as_ref().unwrap().as_str());
            res.append(") ");
            res.append(ret.as_str());
            Ok(res)
        } else if n && !rel && !m && um && !uc && ret_some && !st && !rem && !del && !fsp {
            // MATCH (n:...) RETURN ...
            let ret = match render_tail("RETURN ", self.return_list.as_ref()) {
                Ok(s) => s,
                Err(e) => {
                    return Err(e);
                },
            };
            let mut res = String::from_str("MATCH ");
            let node_str = self.node.as_ref().unwrap().to_query_string();
            res.append(node_str.as_str());
            res.append(" ");
            res.append(ret.as_str());
            Ok(res)
        } else if n && !rel && m && um && !uc && ret_some && !st && !rem && !del && !fsp {
            // MATCH (n:...), (m:...) RETURN ...
            let ret = match render_tail("RETURN ", self.return_list.as_ref()) {
                Ok(s) => s,
                Err(e) => {
                    return Err(e);
                },
            };
            let mut res = String::from_str("MATCH ");
            let node_str = self.node.as_ref().unwrap().to_query_string();
            res.append(node_str.as_str());
            res.append(", ");
            let next_str = self.next_node.as_ref().unwrap().to_query_string();
            res.append(next_str.as_str());
            res.append(" ");
            res.append(ret.as_str());
            Ok(res)
        } else if n && rel && m && um && !uc && ret_some && !st && !rem && !del && !fsp {
            // MATCH (n:...)-[r:...]->(m:...) RETURN ...
            let ret = match render_tail("RETURN ", self.return_list.as_ref()) {
                Ok(s) => s,
                Err(e) => {
                    return Err(e);
                },
            };
            let mut res = String::from_str("MATCH ");
            let node_str = self.node.as_ref().unwrap().to_query_string();
            res.append(node_str.as_str());
            res.append("-");
            let rel_str = self.relation.as_ref().unwrap().to_relation_query_string();
            res.append(rel_str.as_str());
            res.append("->");
            let next_str = self.next_node.as_ref().unwrap().to_query_string();
            res.append(next_str.as_str());
            res.append(" ");
            res.append(ret.as_str());
            Ok(res)
        } else if n && !rel && !m && um && !uc && !del && !fsp {
            // MATCH (n:...) REMOVE ... SET ... RETURN ...
            let rem_str = match render_tail("REMOVE ", self.remove_list.as_ref()) {
                Ok(s) => s,
                Err(e) => {
                    return Err(e);
                },
            };
            let set_str = match render_tail("SET ", self.set_list.as_ref()) {
                Ok(s) => s,
                Err(e) => {
                    return Err(e);
                },
            };
            let ret = match render_tail("RETURN ", self.return_list.as_ref()) {
                Ok(s) => s,
                Err(e) => {
                    return Err(e);
                },
            };
            let mut res = String::from_str("MATCH ");
            let node_str = self.node.as_ref().unwrap().to_query_string();
            res.append(node_str.as_str());
            res.append(" ");
            res.append(rem_str.as_str());
            res.append(" ");
            res.append(set_str.as_str());
            res.append(" ");
            res.append(ret.as_str());
            Ok(res)
        } else if n && rel && m && um && !uc && !del && !fsp {
            // MATCH (n:...)-[r:...]->(m:...) REMOVE ... SET ... RETURN ...
            let rem_str = match render_tail("REMOVE ", self.remove_list.as_ref()) {
                Ok(s) => s,
                Err(e) => {
                    return Err(e);
                },
            };
            let set_str = match render_tail("SET ", self.set_list.as_ref()) {
                Ok(s) => s,
                Err(e) => {
                    return Err(e);
                },
            };
            let ret = match render_tail("RETURN ", self.return_list.as_ref()) {
                Ok(s) => s,
                Err(e) => {
                    return Err(e);
                },
            };
            let mut res = String::from_str("MATCH ");
            let node_str = self.node.as_ref().unwrap().to_query_string();
            res.append(node_str.as_str());
            res.append("-");
            let rel_str = self.relation.as_ref().unwrap().to_relation_query_string();
            res.append(rel_str.as_str());
            res.append("->");
            let next_str = self.next_node.as_ref().unwrap().to_query_string();
            res.append(next_str.as_str());
            res.append(" ");
            res.append(rem_str.as_str());
            res.append(" ");
            res.append(set_str.as_str());
            res.append(" ");
            res.append(ret.as_str());
            Ok(res)
        } else if n && !rel && !m && um && !uc && !st && !rem && del && !fsp {
            // MATCH (n:...) DELETE ...
            let del_str = match self.to_delete_query_string() {
                Ok(s) => s,
                Err(e) => {
                    return Err(e);
                },
            };
            let ret = match render_tail("RETURN ", self.return_list.as_ref()) {
                Ok(s) => s,
                Err(e) => {
                    return Err(e);
                },
            };
            let mut res = String::from_str("MATCH ");
            let node_str = self.node.as_ref().unwrap().to_query_string();
            res.append(node_str.as_str());
            res.append(" ");
            res.append(del_str.as_str());
            res.append(" ");
            res.append(ret.as_str());
            Ok(res)
        } else if n && rel && m && um && !uc && !st && !rem && del && !fsp {
            // MATCH (n:...)-[r:...]->(m:...) DELETE ...
            let del_str = match self.to_delete_query_string() {
                Ok(s) => s,
                Err(e) => {
                    return Err(e);
                },
            };
            let ret = match render_tail("RETURN ", self.return_list.as_ref()) {
                Ok(s) => s,
                Err(e) => {
                    return Err(e);
                },
            };
            let mut res = String::from_str("MATCH ");
            let node_str = self.node.as_ref().unwrap().to_query_string();
            res.append(node_str.as_str());
            res.append("-");
            let rel_str = self.relation.as_ref().unwrap().to_relation_query_string();
            res.append(rel_str.as_str());
            res.append("->");
            let next_str = self.next_node.as_ref().unwrap().to_query_string();
            res.append(next_str.as_str());
            res.append(" ");
            res.append(del_str.as_str());
            res.append(" ");
            res.append(ret.as_str());
            Ok(res)
        } else {
            Err(Error::InvalidQuery)
        }
    }

    /// Classifies the query, rejecting invalid shapes.
    pub fn get_type(&self) -> (r: Result<CRUDtype, Error>)
        ensures
            match spec_crud_type(self@) {
                Some(t) => r == Ok::<CRUDtype, Error>(t),
                None => r == Err::<CRUDtype, Error>(Error::InvalidQuery),
            },
    {
        let n = self.node.is_some();
        let rel = self.relation.is_some();
        let m = self.next_node.is_some();
        let ret = self.return_list.is_some();
        let st = self.set_list.is_some();
        let rem = self.remove_list.is_some();
        let del = self.delete_list.is_some();
        let um = self.use_match;
        let uc = self.use_create;
        let fsp = self.find_shortest_path;

        if !fsp && n && !del && ((!rel && !m && !um || rel && m) && uc) && !st && !rem {
            Ok(CRUDtype::Create)
        } else if !fsp && n && um && !uc && ret && !st && !rem && !del && (!rel && !m || !rel && m
            || rel && m) {
            Ok(CRUDtype::Read)
        } else if !fsp && n && um && !uc && !del && (st && !rem || !st && rem) && (!rel && !m || rel
            && m) {
            Ok(CRUDtype::Update)
        } else if !fsp && n && um && !uc && !st && !rem && del && (!rel && !m || rel && m) {
            Ok(CRUDtype::Delete)
        } else if fsp && n && !rel && m && um && !uc && !ret && !st && !rem && !del {
            Ok(CRUDtype::FindShortestPath)
        } else {
            Err(Error::InvalidQuery)
        }
    }

    fn to_delete_query_string(&self) -> (r: Result<String, Error>)
        ensures
            match spec_delete_tail(self@.delete_list) {
                Some(s) => r is Ok && r->Ok_0@ == s,
                None => r == Err::<String, Error>(Error::EmptyItemList),
            },
    {
        match &self.delete_list {
            None => Ok(String::new()),
            Some((items, detach)) => {
                let joined = render_item_list(items);
                if joined.as_str().is_empty() {
                    Err(Error::EmptyItemList)
                } else {
                    let mut res = if *detach {
                        String::from_str("DETACH DELETE ")
                    } else {
                        String::from_str("DELETE ")
                    };
                    res.append(joined.as_str());
                    Ok(res)
                }
            },
        }
    }
}

/// Builds a [`CypherQuery`] step by step.
pub struct CypherQueryBuilder {
    node: Option<Node>,
    relation: Option<Relation>,
    next_node: Option<Node>,
    use_match: bool,
    use_create: bool,
    return_list: Option<Vec<Item>>,
    set_list: Option<Vec<Item>>,
    remove_list: Option<Vec<Item>>,
    delete_list: Option<(Vec<Item>, bool)>,
    find_shortest_path: bool,
}

impl View for CypherQueryBuilder {
    type V = QueryView;

    closed spec fn view(&self) -> QueryView {
        QueryView {
            node: self.node.deep_view(),
            relation: self.relation.deep_view(),
            next_node: self.next_node.deep_view(),
            use_match: self.use_match,
            use_create: self.use_create,
            return_list: self.return_list.deep_view(),
            set_list: self.set_list.deep_view(),
            remove_list: self.remove_list.deep_view(),
            delete_list: self.delete_list.deep_view(),
            find_shortest_path: self.find_shortest_path,
        }
    }
}

#[allow(non_snake_case)]
impl CypherQueryBuilder {
    /// An empty builder: no parts, no flags.
    pub fn new() -> (res: Self)
        ensures
            res@ == (QueryView {
                node: None,
                relation: None,
                next_node: None,
                use_match: false,
                use_create: false,
                return_list: None,
                set_list: None,
                remove_list: None,
                delete_list: None,
                find_shortest_path: false,
            }),
    {
        CypherQueryBuilder {
            node: None,
            relation: None,
            next_node: None,
            use_match: false,
            use_create: false,
            return_list: None,
            set_list: None,
            remove_list: None,
            delete_list: None,
            find_shortest_path: false,
        }
    }

    pub fn node(self, node: Node) -> (res: Self)
        requires
            self@.node is None,
        ensures
            res@ == (QueryView { node: Some(node@), ..self@ }),
    {
        let mut s = self;
        s.node = Some(node);
        s
    }

    pub fn relation(self, relation: Relation) -> (res: Self)
        requires
            self@.relation is None,
        ensures
            res@ == (QueryView { relation: Some(relation@), ..self@ }),
    {
        let mut s = self;
        s.relation = Some(relation);
        s
    }

    pub fn next_node(self, next_node: Node) -> (res: Self)
        requires
            self@.next_node is None,
        ensures
            res@ == (QueryView { next_node: Some(next_node@), ..self@ }),
    {
        let mut s = self;
        s.next_node = Some(next_node);
        s
    }

    pub fn CREATE(self) -> (res: Self)
        ensures
            res@ == (QueryView { use_create: true, ..self@ }),
    {
        let mut s = self;
        s.use_create = true;
        s
    }

    pub fn MATCH(self) -> (res: Self)
        ensures
            res@ == (QueryView { use_match: true, ..self@ }),
    {
        let mut s = self;
        s.use_match = true;
        s
    }

    pub fn RETURN(self, list: Vec<Item>) -> (res: Self)
        ensures
            res@ == (QueryView { return_list: Some(list.deep_view()), ..self@ }),
    {
        let mut s = self;
        s.return_list = Some(list);
        s
    }

    pub fn SET(self, list: Vec<Item>) -> (res: Self)
        ensures
            res@ == (QueryView { set_list: Some(list.deep_view()), ..self@ }),
    {
        let mut s = self;
        s.set_list = Some(list);
        s
    }

    pub fn REMOVE(self, list: Vec<Item>) -> (res: Self)
        ensures
            res@ == (QueryView { remove_list: Some(list.deep_view()), ..self@ }),
    {
        let mut s = self;
        s.remove_list = Some(list);
        s
    }

    pub fn DELETE(self, list: Vec<Item>, is_detach: bool) -> (res: Self)
        ensures
            res@ == (QueryView { delete_list: Some((list.deep_view(), is_detach)), ..self@ }),
    {
        let mut s = self;
        s.delete_list = Some((list, is_detach));
        s
    }

    pub fn find_shortest_path(self) -> (res: Self)
        ensures
            res@ == (QueryView { find_shortest_path: true, ..self@ }),
    {
        let mut s = self;
        s.find_shortest_path = true;
        s
    }

    /// Finishes the builder into a query with exactly the accumulated parts.
    pub fn build(self) -> (res: CypherQuery)
        ensures
            res@ == self@,
    {
        CypherQuery {
            node: self.node,
            relation: self.relation,
            next_node: self.next_node,
            use_match: self.use_match,
            use_create: self.use_create,
            return_list: self.return_list,
            set_list: self.set_list,
            remove_list: self.remove_list,
            delete_list: self.delete_list,
            find_shortest_path: self.find_shortest_path,
        }
    }
}

} // verus!

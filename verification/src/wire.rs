use vstd::prelude::*;
use vstd::string::*;

use crate::cypher::{CypherQuery, QueryView};
use crate::error::Error;
use crate::item::{Item, ItemView};
use crate::node::{EntityView, Node};
use crate::rows::{Inner, InnerView, Row, Rows};
use crate::strorder::str_eq;

verus! {

// ---------------------------------------------------------------------------
// The canonical wire form: a fixed JSON shape with a fixed field order and
// no whitespace. Serialization is pinned exactly; deserialization accepts
// precisely the canonical texts and is checked against re-serialization.
// ---------------------------------------------------------------------------

/// The lowercase hex digit of a value below sixteen.
pub open spec fn spec_hex_digit(n: u32) -> char {
    if n == 0 {
        '0'
    } else if n == 1 {
        '1'
    } else if n == 2 {
        '2'
    } else if n == 3 {
        '3'
    } else if n == 4 {
        '4'
    } else if n == 5 {
        '5'
    } else if n == 6 {
        '6'
    } else if n == 7 {
        '7'
    } else if n == 8 {
        '8'
    } else if n == 9 {
        '9'
    } else if n == 10 {
        'a'
    } else if n == 11 {
        'b'
    } else if n == 12 {
        'c'
    } else if n == 13 {
        'd'
    } else if n == 14 {
        'e'
    } else {
        'f'
    }
}

/// The escaped form of one character inside a JSON string literal: the
/// named short escapes, a `u`-escape for every other control character,
/// and the character itself otherwise.
pub open spec fn spec_esc_char(c: char) -> Seq<char> {
    if c == '"' {
        "\\\""@
    } else if c == '\\' {
        "\\\\"@
    } else if c == '\n' {
        "\\n"@
    } else if c == '\r' {
        "\\r"@
    } else if c == '\t' {
        "\\t"@
    } else if (c as u32) < 32 {
        "\\u00"@ + seq![spec_hex_digit((c as u32) / 16), spec_hex_digit((c as u32) % 16)]
    } else {
        seq![c]
    }
}

/// The escaped body of a JSON string literal.
pub open spec fn spec_escape(s: Seq<char>) -> Seq<char>
    decreases s.len(),
{
    if s.len() == 0 {
        Seq::empty()
    } else {
        spec_escape(s.drop_last()) + spec_esc_char(s.last())
    }
}

/// A JSON string literal.
pub open spec fn spec_json_string(s: Seq<char>) -> Seq<char> {
    "\""@ + spec_escape(s) + "\""@
}

/// A comma join of already rendered pieces.
pub open spec fn spec_join(parts: Seq<Seq<char>>) -> Seq<char>
    decreases parts.len(),
{
    if parts.len() == 0 {
        Seq::empty()
    } else if parts.len() == 1 {
        parts[0]
    } else {
        spec_join(parts.drop_last()) + ","@ + parts.last()
    }
}

pub open spec fn spec_json_opt_string(v: Option<Seq<char>>) -> Seq<char> {
    match v {
        None => "null"@,
        Some(s) => spec_json_string(s),
    }
}

pub open spec fn spec_json_str_array(ss: Seq<Seq<char>>) -> Seq<char> {
    "["@ + spec_join(ss.map_values(|s: Seq<char>| spec_json_string(s))) + "]"@
}

pub open spec fn spec_json_pair(p: (Seq<char>, Seq<char>)) -> Seq<char> {
    "["@ + spec_json_string(p.0) + ","@ + spec_json_string(p.1) + "]"@
}

pub open spec fn spec_json_pair_array(ps: Seq<(Seq<char>, Seq<char>)>) -> Seq<char> {
    "["@ + spec_join(ps.map_values(|p: (Seq<char>, Seq<char>)| spec_json_pair(p))) + "]"@
}

pub open spec fn spec_json_node(e: EntityView) -> Seq<char> {
    "{\"var_name\":"@ + spec_json_opt_string(e.var_name) + ",\"labels\":"@ + spec_json_str_array(
        e.labels,
    ) + ",\"properties\":"@ + spec_json_pair_array(e.properties) + "}"@
}

pub open spec fn spec_json_opt_node(e: Option<EntityView>) -> Seq<char> {
    match e {
        None => "null"@,
        Some(ev) => spec_json_node(ev),
    }
}

pub open spec fn spec_json_item(it: ItemView) -> Seq<char> {
    match it {
        ItemView::Var(v) => "{\"Var\":"@ + spec_json_string(v) + "}"@,
        ItemView::VarWithLabel(v, l) => "{\"VarWithLabel\":["@ + spec_json_string(v) + ","@
            + spec_json_string(l) + "]}"@,
        ItemView::VarWithKey(v, k) => "{\"VarWithKey\":["@ + spec_json_string(v) + ","@
            + spec_json_string(k) + "]}"@,
        ItemView::VarWithKeyValue(v, k, val) => "{\"VarWithKeyValue\":["@ + spec_json_string(v)
            + ","@ + spec_json_string(k) + ","@ + spec_json_string(val) + "]}"@,
    }
}

pub open spec fn spec_json_items(items: Seq<ItemView>) -> Seq<char> {
    "["@ + spec_join(items.map_values(|it: ItemView| spec_json_item(it))) + "]"@
}

pub open spec fn spec_json_opt_items(l: Option<Seq<ItemView>>) -> Seq<char> {
    match l {
        None => "null"@,
        Some(items) => spec_json_items(items),
    }
}

pub open spec fn spec_json_bool(b: bool) -> Seq<char> {
    if b {
        "true"@
    } else {
        "false"@
    }
}

pub open spec fn spec_json_delete(dl: Option<(Seq<ItemView>, bool)>) -> Seq<char> {
    match dl {
        None => "null"@,
        Some((items, detach)) => "["@ + spec_json_items(items) + ","@ + spec_json_bool(detach)
            + "]"@,
    }
}

/// The canonical serialization of a query.
pub open spec fn spec_ser_query(q: QueryView) -> Seq<char> {
    "{\"node\":"@ + spec_json_opt_node(q.node) + ",\"relation\":"@ + spec_json_opt_node(
        q.relation,
    ) + ",\"next_node\":"@ + spec_json_opt_node(q.next_node) + ",\"use_match\":"@ + spec_json_bool(
        q.use_match,
    ) + ",\"use_create\":"@ + spec_json_bool(q.use_create) + ",\"return_list\":"@
        + spec_json_opt_items(q.return_list) + ",\"set_list\":"@ + spec_json_opt_items(q.set_list)
        + ",\"remove_list\":"@ + spec_json_opt_items(q.remove_list) + ",\"delete_list\":"@
        + spec_json_delete(q.delete_list) + ",\"find_shortest_path\":"@ + spec_json_bool(
        q.find_shortest_path,
    ) + "}"@
}

pub open spec fn spec_json_inner(iv: InnerView) -> Seq<char> {
    "{\"labels\":"@ + spec_json_str_array(iv.labels) + ",\"properties\":"@ + spec_json_pair_array(
        iv.properties,
    ) + "}"@
}

pub open spec fn spec_json_row(row: Seq<InnerView>) -> Seq<char> {
    "{\"inners\":["@ + spec_join(row.map_values(|iv: InnerView| spec_json_inner(iv))) + "]}"@
}

/// The canonical serialization of a result.
pub open spec fn spec_ser_rows(rows: Seq<Seq<InnerView>>) -> Seq<char> {
    "{\"rows\":["@ + spec_join(rows.map_values(|row: Seq<InnerView>| spec_json_row(row))) + "]}"@
}

// ---------------------------------------------------------------------------
// Serializer
// ---------------------------------------------------------------------------


/// Relies on String::push: appends exactly the one character.
#[verifier::external_body]
fn push_char(out: &mut String, c: char)
    ensures
        final(out)@ == old(out)@ + seq![c],
{
    out.push(c);
}

/// Relies on char::from_u32: `Some` exactly on Unicode scalar values (not a
/// surrogate, at most the largest code point), and then the character with
/// that code point.
#[verifier::external_body]
fn char_from_code(v: u32) -> (r: Option<char>)
    ensures
        r is Some <==> (v < 0xD800 || (0xE000 <= v && v <= 0x10FFFF)),
        r is Some ==> r->0 == (v as char),
{
    char::from_u32(v)
}

fn append_hex_digit(out: &mut String, n: u32)
    requires
        n < 16,
    ensures
        final(out)@ == old(out)@ + seq![spec_hex_digit(n)],
{
    proof {
        reveal_strlit("0");
        reveal_strlit("1");
        reveal_strlit("2");
        reveal_strlit("3");
        reveal_strlit("4");
        reveal_strlit("5");
        reveal_strlit("6");
        reveal_strlit("7");
        reveal_strlit("8");
        reveal_strlit("9");
        reveal_strlit("a");
        reveal_strlit("b");
        reveal_strlit("c");
        reveal_strlit("d");
        reveal_strlit("e");
        reveal_strlit("f");
    }
    if n == 0 {
        out.append("0");
    } else if n == 1 {
        out.append("1");
    } else if n == 2 {
        out.append("2");
    } else if n == 3 {
        out.append("3");
    } else if n == 4 {
        out.append("4");
    } else if n == 5 {
        out.append("5");
    } else if n == 6 {
        out.append("6");
    } else if n == 7 {
        out.append("7");
    } else if n == 8 {
        out.append("8");
    } else if n == 9 {
        out.append("9");
    } else if n == 10 {
        out.append("a");
    } else if n == 11 {
        out.append("b");
    } else if n == 12 {
        out.append("c");
    } else if n == 13 {
        out.append("d");
    } else if n == 14 {
        out.append("e");
    } else {
        out.append("f");
    }
    proof {
        assert(final(out)@ =~= old(out)@ + seq![spec_hex_digit(n)]);
    }
}

#[verifier::rlimit(100)]
fn escape_into(out: &mut String, s: &str)
    ensures
        final(out)@ == old(out)@ + spec_escape(s@),
{
    let n = s.unicode_len();
    let mut i: usize = 0;
    proof {
        assert(s@.subrange(0, 0) =~= Seq::empty());
        assert(out@ =~= old(out)@ + spec_escape(s@.subrange(0, 0)));
    }
    while i < n
        invariant
            0 <= i <= n,
            n == s@.len(),
            out@ == old(out)@ + spec_escape(s@.subrange(0, i as int)),
        decreases n - i,
    {
        let c = s.get_char(i);
        if c == '"' {
            out.append("\\\"");
        } else if c == '\\' {
            out.append("\\\\");
        } else if c == '\n' {
            out.append("\\n");
        } else if c == '\r' {
            out.append("\\r");
        } else if c == '\t' {
            out.append("\\t");
        } else if (c as u32) < 32 {
            out.append("\\u00");
            let v = c as u32;
            append_hex_digit(out, v / 16);
            append_hex_digit(out, v % 16);
            proof {
                reveal_strlit("\\u00");
                assert(spec_esc_char(c) =~= "\\u00"@ + seq![spec_hex_digit(v / 16)] + seq![
                    spec_hex_digit(v % 16),
                ]);
                assert(out@ =~= old(out)@ + spec_escape(s@.subrange(0, i as int))
                    + spec_esc_char(c));
            }
        } else {
            let piece = s.substring_char(i, i + 1);
            out.append(piece);
            proof {
                assert(piece@ =~= seq![s@[i as int]]);
            }
        }
        proof {
            let sub = s@.subrange(0, i as int);
            let ext = s@.subrange(0, i + 1 as int);
            assert(ext.drop_last() =~= sub);
            assert(ext.last() == s@[i as int]);
            assert(spec_escape(ext) =~= spec_escape(sub) + spec_esc_char(s@[i as int]));
            assert(out@ =~= old(out)@ + spec_escape(ext));
        }
        i = i + 1;
    }
    proof {
        assert(s@.subrange(0, n as int) =~= s@);
    }
}

fn json_string_into(out: &mut String, s: &str)
    ensures
        final(out)@ == old(out)@ + spec_json_string(s@),
{
    out.append("\"");
    escape_into(out, s);
    out.append("\"");
}

fn json_opt_string_into(out: &mut String, v: &Option<String>)
    ensures
        final(out)@ == old(out)@ + spec_json_opt_string(v.deep_view()),
{
    match v {
        None => out.append("null"),
        Some(s) => json_string_into(out, s.as_str()),
    }
}

fn json_str_array_into(out: &mut String, ss: &Vec<String>)
    ensures
        final(out)@ == old(out)@ + spec_json_str_array(ss.deep_view()),
{
    out.append("[");
    let ghost base = out@;
    let mut i: usize = 0;
    proof {
        assert(ss.deep_view().subrange(0, 0).map_values(|s: Seq<char>| spec_json_string(s))
            =~= Seq::<Seq<char>>::empty());
    }
    while i < ss.len()
        invariant
            0 <= i <= ss.len(),
            out@ == base + spec_join(
                ss.deep_view().subrange(0, i as int).map_values(
                    |s: Seq<char>| spec_json_string(s),
                ),
            ),
        decreases ss.len() - i,
    {
        if i > 0 {
            out.append(",");
        }
        json_string_into(out, ss[i].as_str());
        proof {
            let views = ss.deep_view();
            let f = |s: Seq<char>| spec_json_string(s);
            assert(views.subrange(0, i + 1 as int).map_values(f).drop_last() =~= views.subrange(
                0,
                i as int,
            ).map_values(f));
            assert(views.subrange(0, i + 1 as int).map_values(f).last() == f(views[i as int]));
            if i == 0 {
                assert(out@ =~= base + spec_join(views.subrange(0, 1).map_values(f)));
            }
        }
        i = i + 1;
    }
    proof {
        assert(ss.deep_view().subrange(0, ss.len() as int) =~= ss.deep_view());
    }
    out.append("]");
}

fn json_pair_array_into(out: &mut String, ps: &Vec<(String, String)>)
    ensures
        final(out)@ == old(out)@ + spec_json_pair_array(ps.deep_view()),
{
    out.append("[");
    let ghost base = out@;
    let mut i: usize = 0;
    proof {
        assert(ps.deep_view().subrange(0, 0).map_values(
            |p: (Seq<char>, Seq<char>)| spec_json_pair(p),
        ) =~= Seq::<Seq<char>>::empty());
    }
    while i < ps.len()
        invariant
            0 <= i <= ps.len(),
            out@ == base + spec_join(
                ps.deep_view().subrange(0, i as int).map_values(
                    |p: (Seq<char>, Seq<char>)| spec_json_pair(p),
                ),
            ),
        decreases ps.len() - i,
    {
        if i > 0 {
            out.append(",");
        }
        out.append("[");
        json_string_into(out, ps[i].0.as_str());
        out.append(",");
        json_string_into(out, ps[i].1.as_str());
        out.append("]");
        proof {
            let views = ps.deep_view();
            let f = |p: (Seq<char>, Seq<char>)| spec_json_pair(p);
            assert(views.subrange(0, i + 1 as int).map_values(f).drop_last() =~= views.subrange(
                0,
                i as int,
            ).map_values(f));
            assert(views.subrange(0, i + 1 as int).map_values(f).last() == f(views[i as int]));
            if i == 0 {
                assert(out@ =~= base + spec_join(views.subrange(0, 1).map_values(f)));
            }
        }
        i = i + 1;
    }
    proof {
        assert(ps.deep_view().subrange(0, ps.len() as int) =~= ps.deep_view());
    }
    out.append("]");
}

fn json_node_into(out: &mut String, n: &Node)
    ensures
        final(out)@ == old(out)@ + spec_json_node(n@),
{
    out.append("{\"var_name\":");
    json_opt_string_into(out, &n.var_name);
    out.append(",\"labels\":");
    json_str_array_into(out, &n.labels);
    out.append(",\"properties\":");
    json_pair_array_into(out, &n.properties);
    out.append("}");
}

fn json_opt_node_into(out: &mut String, n: &Option<Node>)
    ensures
        final(out)@ == old(out)@ + spec_json_opt_node(n.deep_view()),
{
    match n {
        None => out.append("null"),
        Some(node) => json_node_into(out, node),
    }
}

fn json_item_into(out: &mut String, it: &Item)
    ensures
        final(out)@ == old(out)@ + spec_json_item(it@),
{
    match it {
        Item::Var(v) => {
            out.append("{\"Var\":");
            json_string_into(out, v.as_str());
            out.append("}");
        },
        Item::VarWithLabel(v, l) => {
            out.append("{\"VarWithLabel\":[");
            json_string_into(out, v.as_str());
            out.append(",");
            json_string_into(out, l.as_str());
            out.append("]}");
        },
        Item::VarWithKey(v, k) => {
            out.append("{\"VarWithKey\":[");
            json_string_into(out, v.as_str());
            out.append(",");
            json_string_into(out, k.as_str());
            out.append("]}");
        },
        Item::VarWithKeyValue(v, k, val) => {
            out.append("{\"VarWithKeyValue\":[");
            json_string_into(out, v.as_str());
            out.append(",");
            json_string_into(out, k.as_str());
            out.append(",");
            json_string_into(out, val.as_str());
            out.append("]}");
        },
    }
}

fn json_items_into(out: &mut String, items: &Vec<Item>)
    ensures
        final(out)@ == old(out)@ + spec_json_items(items.deep_view()),
{
    out.append("[");
    let ghost base = out@;
    let mut i: usize = 0;
    proof {
        assert(items.deep_view().subrange(0, 0).map_values(|it: ItemView| spec_json_item(it))
            =~= Seq::<Seq<char>>::empty());
    }
    while i < items.len()
        invariant
            0 <= i <= items.len(),
            out@ == base + spec_join(
                items.deep_view().subrange(0, i as int).map_values(
                    |it: ItemView| spec_json_item(it),
                ),
            ),
        decreases items.len() - i,
    {
        if i > 0 {
            out.append(",");
        }
        json_item_into(out, &items[i]);
        proof {
            let views = items.deep_view();
            let f = |it: ItemView| spec_json_item(it);
            assert(views.subrange(0, i + 1 as int).map_values(f).drop_last() =~= views.subrange(
                0,
                i as int,
            ).map_values(f));
            assert(views.subrange(0, i + 1 as int).map_values(f).last() == f(views[i as int]));
            if i == 0 {
                assert(out@ =~= base + spec_join(views.subrange(0, 1).map_values(f)));
            }
        }
        i = i + 1;
    }
    proof {
        assert(items.deep_view().subrange(0, items.len() as int) =~= items.deep_view());
    }
    out.append("]");
}

fn json_opt_items_into(out: &mut String, items: &Option<Vec<Item>>)
    ensures
        final(out)@ == old(out)@ + spec_json_opt_items(items.deep_view()),
{
    match items {
        None => out.append("null"),
        Some(l) => json_items_into(out, l),
    }
}

fn json_bool_into(out: &mut String, b: bool)
    ensures
        final(out)@ == old(out)@ + spec_json_bool(b),
{
    if b {
        out.append("true");
    } else {
        out.append("false");
    }
}

impl CypherQuery {
    /// Renders the query in the canonical wire form.
    #[verifier::rlimit(100)]
    pub fn serialize(&self) -> (r: Result<String, Error>)
        ensures
            r is Ok && r->Ok_0@ == spec_ser_query(self@),
    {
        let mut out = String::new();
        out.append("{\"node\":");
        json_opt_node_into(&mut out, &self.node);
        out.append(",\"relation\":");
        json_opt_node_into(&mut out, &self.relation);
        out.append(",\"next_node\":");
        json_opt_node_into(&mut out, &self.next_node);
        out.append(",\"use_match\":");
        json_bool_into(&mut out, self.use_match);
        out.append(",\"use_create\":");
        json_bool_into(&mut out, self.use_create);
        out.append(",\"return_list\":");
        json_opt_items_into(&mut out, &self.return_list);
        out.append(",\"set_list\":");
        json_opt_items_into(&mut out, &self.set_list);
        out.append(",\"remove_list\":");
        json_opt_items_into(&mut out, &self.remove_list);
        out.append(",\"delete_list\":");
        match &self.delete_list {
            None => out.append("null"),
            Some((items, detach)) => {
                out.append("[");
                json_items_into(&mut out, items);
                out.append(",");
                json_bool_into(&mut out, *detach);
                out.append("]");
            },
        }
        out.append(",\"find_shortest_path\":");
        json_bool_into(&mut out, self.find_shortest_path);
        out.append("}");
        Ok(out)
    }
}

fn json_inner_into(out: &mut String, inner: &Inner)
    ensures
        final(out)@ == old(out)@ + spec_json_inner(inner@),
{
    out.append("{\"labels\":");
    json_str_array_into(out, inner.labels());
    out.append(",\"properties\":");
    json_pair_array_into(out, inner.properties());
    out.append("}");
}

fn json_row_into(out: &mut String, row: &Row)
    ensures
        final(out)@ == old(out)@ + spec_json_row(row@),
{
    out.append("{\"inners\":[");
    let ghost base = out@;
    let inners = row.inners();
    let mut i: usize = 0;
    proof {
        assert(row@.subrange(0, 0).map_values(|iv: InnerView| spec_json_inner(iv))
            =~= Seq::<Seq<char>>::empty());
    }
    while i < inners.len()
        invariant
            inners.deep_view() == row@,
            0 <= i <= inners.len(),
            out@ == base + spec_join(
                row@.subrange(0, i as int).map_values(|iv: InnerView| spec_json_inner(iv)),
            ),
        decreases inners.len() - i,
    {
        if i > 0 {
            out.append(",");
        }
        json_inner_into(out, &inners[i]);
        proof {
            let f = |iv: InnerView| spec_json_inner(iv);
            assert(row@.subrange(0, i + 1 as int).map_values(f).drop_last() =~= row@.subrange(
                0,
                i as int,
            ).map_values(f));
            assert(row@.subrange(0, i + 1 as int).map_values(f).last() == f(row@[i as int]));
            if i == 0 {
                assert(out@ =~= base + spec_join(row@.subrange(0, 1).map_values(f)));
            }
        }
        i = i + 1;
    }
    proof {
        assert(row@.subrange(0, inners.len() as int) =~= row@);
    }
    out.append("]}");
}

impl Rows {
    /// Renders the result in the canonical wire form.
    pub fn serialize(&self) -> (r: Result<String, Error>)
        ensures
            r is Ok && r->Ok_0@ == spec_ser_rows(self@),
    {
        let mut out = String::new();
        out.append("{\"rows\":[");
        let ghost base = out@;
        let rows = self.rows();
        let mut i: usize = 0;
        proof {
            assert(self@.subrange(0, 0).map_values(|row: Seq<InnerView>| spec_json_row(row))
                =~= Seq::<Seq<char>>::empty());
        }
        while i < rows.len()
            invariant
                rows.deep_view() == self@,
                0 <= i <= rows.len(),
                out@ == base + spec_join(
                    self@.subrange(0, i as int).map_values(
                        |row: Seq<InnerView>| spec_json_row(row),
                    ),
                ),
            decreases rows.len() - i,
        {
            if i > 0 {
                out.append(",");
            }
            json_row_into(&mut out, &rows[i]);
            proof {
                let f = |row: Seq<InnerView>| spec_json_row(row);
                assert(self@.subrange(0, i + 1 as int).map_values(f).drop_last()
                    =~= self@.subrange(0, i as int).map_values(f));
                assert(self@.subrange(0, i + 1 as int).map_values(f).last() == f(
                    self@[i as int],
                ));
                if i == 0 {
                    assert(out@ =~= base + spec_join(self@.subrange(0, 1).map_values(f)));
                }
            }
            i = i + 1;
        }
        proof {
            assert(self@.subrange(0, rows.len() as int) =~= self@);
        }
        out.append("]}");
        Ok(out)
    }
}

// ---------------------------------------------------------------------------
// Parser: strict recursive descent over the canonical form. Every accepted
// text is checked to re-serialize to itself, so acceptance is exact.
// ---------------------------------------------------------------------------

fn expect_lit(s: &str, len: usize, pos: usize, lit: &str) -> (r: Result<usize, Error>)
    requires
        len == s@.len(),
        pos <= len,
    ensures
        match r {
            Ok(p) => pos <= p <= len && p - pos == lit@.len(),
            Err(e) => e == Error::Malformed,
        },
{
    let ll = lit.unicode_len();
    let mut i: usize = 0;
    let mut p = pos;
    while i < ll
        invariant
            len == s@.len(),
            ll == lit@.len(),
            pos <= p <= len,
            0 <= i <= ll,
            p == pos + i,
        decreases ll - i,
    {
        if p >= len {
            return Err(Error::Malformed);
        }
        if s.get_char(p) != lit.get_char(i) {
            return Err(Error::Malformed);
        }
        p = p + 1;
        i = i + 1;
    }
    Ok(p)
}

fn hex_val(c: char) -> (r: Option<u32>)
    ensures
        r is Some ==> r->0 < 16,
{
    let v = c as u32;
    if v >= 48 && v <= 57 {
        Some(v - 48)
    } else if v >= 97 && v <= 102 {
        Some(v - 97 + 10)
    } else if v >= 65 && v <= 70 {
        Some(v - 65 + 10)
    } else {
        None
    }
}

fn parse_string(s: &str, len: usize, pos: usize) -> (r: Result<(String, usize), Error>)
    requires
        len == s@.len(),
        pos <= len,
    ensures
        match r {
            Ok(p) => pos < p.1 <= len,
            Err(e) => e == Error::Malformed,
        },
{
    if pos >= len || s.get_char(pos) != '"' {
        return Err(Error::Malformed);
    }
    let mut out = String::new();
    let mut p = pos + 1;
    let mut run_start = p;
    while p < len
        invariant
            len == s@.len(),
            pos < run_start <= p <= len,
        decreases len - p,
    {
        let c = s.get_char(p);
        if c == '"' {
            let piece = s.substring_char(run_start, p);
            out.append(piece);
            return Ok((out, p + 1));
        }
        if c == '\\' {
            let piece = s.substring_char(run_start, p);
            out.append(piece);
            if p + 1 >= len {
                return Err(Error::Malformed);
            }
            let e = s.get_char(p + 1);
            if e == '"' {
                out.append("\"");
            } else if e == '\\' {
                out.append("\\");
            } else if e == 'n' {
                out.append("\n");
            } else if e == 'r' {
                out.append("\r");
            } else if e == 't' {
                out.append("\t");
            } else if e == 'u' {
                if len - p < 6 {
                    return Err(Error::Malformed);
                }
                let h1 = match hex_val(s.get_char(p + 2)) {
                    Some(x) => x,
                    None => {
                        return Err(Error::Malformed);
                    },
                };
                let h2 = match hex_val(s.get_char(p + 3)) {
                    Some(x) => x,
                    None => {
                        return Err(Error::Malformed);
                    },
                };
                let h3 = match hex_val(s.get_char(p + 4)) {
                    Some(x) => x,
                    None => {
                        return Err(Error::Malformed);
                    },
                };
                let h4 = match hex_val(s.get_char(p + 5)) {
                    Some(x) => x,
                    None => {
                        return Err(Error::Malformed);
                    },
                };
                let code = ((h1 * 16 + h2) * 16 + h3) * 16 + h4;
                let decoded = match char_from_code(code) {
                    Some(x) => x,
                    None => {
                        return Err(Error::Malformed);
                    },
                };
                push_char(&mut out, decoded);
                p = p + 6;
                run_start = p;
                continue;
            } else {
                return Err(Error::Malformed);
            }
            p = p + 2;
            run_start = p;
        } else {
            p = p + 1;
        }
    }
    Err(Error::Malformed)
}

fn parse_bool(s: &str, len: usize, pos: usize) -> (r: Result<(bool, usize), Error>)
    requires
        len == s@.len(),
        pos <= len,
    ensures
        match r {
            Ok(p) => pos <= p.1 <= len,
            Err(e) => e == Error::Malformed,
        },
{
    if pos < len && s.get_char(pos) == 't' {
        match expect_lit(s, len, pos, "true") {
            Ok(p) => Ok((true, p)),
            Err(e) => Err(e),
        }
    } else {
        match expect_lit(s, len, pos, "false") {
            Ok(p) => Ok((false, p)),
            Err(e) => Err(e),
        }
    }
}

fn parse_opt_string(s: &str, len: usize, pos: usize) -> (r: Result<(Option<String>, usize), Error>)
    requires
        len == s@.len(),
        pos <= len,
    ensures
        match r {
            Ok(p) => pos <= p.1 <= len,
            Err(e) => e == Error::Malformed,
        },
{
    if pos < len && s.get_char(pos) == 'n' {
        match expect_lit(s, len, pos, "null") {
            Ok(p) => Ok((None, p)),
            Err(e) => Err(e),
        }
    } else {
        match parse_string(s, len, pos) {
            Ok((v, p)) => Ok((Some(v), p)),
            Err(e) => Err(e),
        }
    }
}

fn parse_str_array(s: &str, len: usize, pos: usize) -> (r: Result<(Vec<String>, usize), Error>)
    requires
        len == s@.len(),
        pos <= len,
    ensures
        match r {
            Ok(p) => pos < p.1 <= len,
            Err(e) => e == Error::Malformed,
        },
{
    let mut p = match expect_lit(s, len, pos, "[") {
        Ok(p) => p,
        Err(e) => {
            return Err(e);
        },
    };
    if p >= len {
        return Err(Error::Malformed);
    }
    let mut out: Vec<String> = Vec::new();
    if s.get_char(p) == ']' {
        return Ok((out, p + 1));
    }
    while p < len
        invariant
            len == s@.len(),
            pos <= p <= len,
        decreases len - p,
    {
        let (v, p2) = match parse_string(s, len, p) {
            Ok(x) => x,
            Err(e) => {
                return Err(e);
            },
        };
        out.push(v);
        if p2 >= len {
            return Err(Error::Malformed);
        }
        let c = s.get_char(p2);
        if c == ']' {
            return Ok((out, p2 + 1));
        }
        if c != ',' {
            return Err(Error::Malformed);
        }
        p = p2 + 1;
    }
    Err(Error::Malformed)
}

fn parse_pair_array(s: &str, len: usize, pos: usize) -> (r: Result<
    (Vec<(String, String)>, usize),
    Error,
>)
    requires
        len == s@.len(),
        pos <= len,
    ensures
        match r {
            Ok(p) => pos < p.1 <= len,
            Err(e) => e == Error::Malformed,
        },
{
    let mut p = match expect_lit(s, len, pos, "[") {
        Ok(p) => p,
        Err(e) => {
            return Err(e);
        },
    };
    if p >= len {
        return Err(Error::Malformed);
    }
    let mut out: Vec<(String, String)> = Vec::new();
    if s.get_char(p) == ']' {
        return Ok((out, p + 1));
    }
    while p < len
        invariant
            len == s@.len(),
            pos <= p <= len,
        decreases len - p,
    {
        let p1 = match expect_lit(s, len, p, "[") {
            Ok(x) => x,
            Err(e) => {
                return Err(e);
            },
        };
        let (k, p2) = match parse_string(s, len, p1) {
            Ok(x) => x,
            Err(e) => {
                return Err(e);
            },
        };
        let p3 = match expect_lit(s, len, p2, ",") {
            Ok(x) => x,
            Err(e) => {
                return Err(e);
            },
        };
        let (v, p4) = match parse_string(s, len, p3) {
            Ok(x) => x,
            Err(e) => {
                return Err(e);
            },
        };
        let p5 = match expect_lit(s, len, p4, "]") {
            Ok(x) => x,
            Err(e) => {
                return Err(e);
            },
        };
        out.push((k, v));
        if p5 >= len {
            return Err(Error::Malformed);
        }
        let c = s.get_char(p5);
        if c == ']' {
            return Ok((out, p5 + 1));
        }
        if c != ',' {
            return Err(Error::Malformed);
        }
        p = p5 + 1;
    }
    Err(Error::Malformed)
}

fn parse_node(s: &str, len: usize, pos: usize) -> (r: Result<(Node, usize), Error>)
    requires
        len == s@.len(),
        pos <= len,
    ensures
        match r {
            Ok(p) => pos < p.1 <= len,
            Err(e) => e == Error::Malformed,
        },
{
    let p = match expect_lit(s, len, pos, "{\"var_name\":") {
        Ok(x) => x,
        Err(e) => {
            return Err(e);
        },
    };
    let (var_name, p) = match parse_opt_string(s, len, p) {
        Ok(x) => x,
        Err(e) => {
            return Err(e);
        },
    };
    let p = match expect_lit(s, len, p, ",\"labels\":") {
        Ok(x) => x,
        Err(e) => {
            return Err(e);
        },
    };
    let (labels, p) = match parse_str_array(s, len, p) {
        Ok(x) => x,
        Err(e) => {
            return Err(e);
        },
    };
    let p = match expect_lit(s, len, p, ",\"properties\":") {
        Ok(x) => x,
        Err(e) => {
            return Err(e);
        },
    };
    let (properties, p) = match parse_pair_array(s, len, p) {
        Ok(x) => x,
        Err(e) => {
            return Err(e);
        },
    };
    let p = match expect_lit(s, len, p, "}") {
        Ok(x) => x,
        Err(e) => {
            return Err(e);
        },
    };
    Ok((Node { var_name, labels, properties }, p))
}

fn parse_opt_node(s: &str, len: usize, pos: usize) -> (r: Result<(Option<Node>, usize), Error>)
    requires
        len == s@.len(),
        pos <= len,
    ensures
        match r {
            Ok(p) => pos <= p.1 <= len,
            Err(e) => e == Error::Malformed,
        },
{
    if pos < len && s.get_char(pos) == 'n' {
        match expect_lit(s, len, pos, "null") {
            Ok(p) => Ok((None, p)),
            Err(e) => Err(e),
        }
    } else {
        match parse_node(s, len, pos) {
            Ok((n, p)) => Ok((Some(n), p)),
            Err(e) => Err(e),
        }
    }
}

#[verifier::rlimit(100)]
fn parse_item(s: &str, len: usize, pos: usize) -> (r: Result<(Item, usize), Error>)
    requires
        len == s@.len(),
        pos <= len,
    ensures
        match r {
            Ok(p) => pos < p.1 <= len,
            Err(e) => e == Error::Malformed,
        },
{
    let p = match expect_lit(s, len, pos, "{") {
        Ok(x) => x,
        Err(e) => {
            return Err(e);
        },
    };
    let (tag, p) = match parse_string(s, len, p) {
        Ok(x) => x,
        Err(e) => {
            return Err(e);
        },
    };
    let p = match expect_lit(s, len, p, ":") {
        Ok(x) => x,
        Err(e) => {
            return Err(e);
        },
    };
    if str_eq(tag.as_str(), "Var") {
        let (v, p) = match parse_string(s, len, p) {
            Ok(x) => x,
            Err(e) => {
                return Err(e);
            },
        };
        let p = match expect_lit(s, len, p, "}") {
            Ok(x) => x,
            Err(e) => {
                return Err(e);
            },
        };
        Ok((Item::Var(v), p))
    } else if str_eq(tag.as_str(), "VarWithLabel") || str_eq(tag.as_str(), "VarWithKey") {
        let p = match expect_lit(s, len, p, "[") {
            Ok(x) => x,
            Err(e) => {
                return Err(e);
            },
        };
        let (a, p) = match parse_string(s, len, p) {
            Ok(x) => x,
            Err(e) => {
                return Err(e);
            },
        };
        let p = match expect_lit(s, len, p, ",") {
            Ok(x) => x,
            Err(e) => {
                return Err(e);
            },
        };
        let (b, p) = match parse_string(s, len, p) {
            Ok(x) => x,
            Err(e) => {
                return Err(e);
            },
        };
        let p = match expect_lit(s, len, p, "]}") {
            Ok(x) => x,
            Err(e) => {
                return Err(e);
            },
        };
        if str_eq(tag.as_str(), "VarWithLabel") {
            Ok((Item::VarWithLabel(a, b), p))
        } else {
            Ok((Item::VarWithKey(a, b), p))
        }
    } else if str_eq(tag.as_str(), "VarWithKeyValue") {
        let p = match expect_lit(s, len, p, "[") {
            Ok(x) => x,
            Err(e) => {
                return Err(e);
            },
        };
        let (a, p) = match parse_string(s, len, p) {
            Ok(x) => x,
            Err(e) => {
                return Err(e);
            },
        };
        let p = match expect_lit(s, len, p, ",") {
            Ok(x) => x,
            Err(e) => {
                return Err(e);
            },
        };
        let (b, p) = match parse_string(s, len, p) {
            Ok(x) => x,
            Err(e) => {
                return Err(e);
            },
        };
        let p = match expect_lit(s, len, p, ",") {
            Ok(x) => x,
            Err(e) => {
                return Err(e);
            },
        };
        let (c, p) = match parse_string(s, len, p) {
            Ok(x) => x,
            Err(e) => {
                return Err(e);
            },
        };
        let p = match expect_lit(s, len, p, "]}") {
            Ok(x) => x,
            Err(e) => {
                return Err(e);
            },
        };
        Ok((Item::VarWithKeyValue(a, b, c), p))
    } else {
        Err(Error::Malformed)
    }
}

fn parse_items(s: &str, len: usize, pos: usize) -> (r: Result<(Vec<Item>, usize), Error>)
    requires
        len == s@.len(),
        pos <= len,
    ensures
        match r {
            Ok(p) => pos < p.1 <= len,
            Err(e) => e == Error::Malformed,
        },
{
    let mut p = match expect_lit(s, len, pos, "[") {
        Ok(p) => p,
        Err(e) => {
            return Err(e);
        },
    };
    if p >= len {
        return Err(Error::Malformed);
    }
    let mut out: Vec<Item> = Vec::new();
    if s.get_char(p) == ']' {
        return Ok((out, p + 1));
    }
    while p < len
        invariant
            len == s@.len(),
            pos <= p <= len,
        decreases len - p,
    {
        let (it, p2) = match parse_item(s, len, p) {
            Ok(x) => x,
            Err(e) => {
                return Err(e);
            },
        };
        out.push(it);
        if p2 >= len {
            return Err(Error::Malformed);
        }
        let c = s.get_char(p2);
        if c == ']' {
            return Ok((out, p2 + 1));
        }
        if c != ',' {
            return Err(Error::Malformed);
        }
        p = p2 + 1;
    }
    Err(Error::Malformed)
}

fn parse_opt_items(s: &str, len: usize, pos: usize) -> (r: Result<
    (Option<Vec<Item>>, usize),
    Error,
>)
    requires
        len == s@.len(),
        pos <= len,
    ensures
        match r {
            Ok(p) => pos <= p.1 <= len,
            Err(e) => e == Error::Malformed,
        },
{
    if pos < len && s.get_char(pos) == 'n' {
        match expect_lit(s, len, pos, "null") {
            Ok(p) => Ok((None, p)),
            Err(e) => Err(e),
        }
    } else {
        match parse_items(s, len, pos) {
            Ok((l, p)) => Ok((Some(l), p)),
            Err(e) => Err(e),
        }
    }
}

impl CypherQuery {
    /// Parses the canonical wire form. Exactly the texts produced by
    /// [`CypherQuery::serialize`] are accepted: every accepted text equals
    /// the canonical serialization of the returned query.
    pub fn deserialize(serialized: &str) -> (r: Result<CypherQuery, Error>)
        ensures
            match r {
                Ok(q) => spec_ser_query(q@) == serialized@,
                Err(e) => e == Error::Malformed,
            },
    {
        let s = serialized;
        let len = s.unicode_len();
        let p = match expect_lit(s, len, 0, "{\"node\":") {
            Ok(x) => x,
            Err(e) => {
                return Err(e);
            },
        };
        let (node, p) = match parse_opt_node(s, len, p) {
            Ok(x) => x,
            Err(e) => {
                return Err(e);
            },
        };
        let p = match expect_lit(s, len, p, ",\"relation\":") {
            Ok(x) => x,
            Err(e) => {
                return Err(e);
            },
        };
        let (relation, p) = match parse_opt_node(s, len, p) {
            Ok(x) => x,
            Err(e) => {
                return Err(e);
            },
        };
        let p = match expect_lit(s, len, p, ",\"next_node\":") {
            Ok(x) => x,
            Err(e) => {
                return Err(e);
            },
        };
        let (next_node, p) = match parse_opt_node(s, len, p) {
            Ok(x) => x,
            Err(e) => {
                return Err(e);
            },
        };
        let p = match expect_lit(s, len, p, ",\"use_match\":") {
            Ok(x) => x,
            Err(e) => {
                return Err(e);
            },
        };
        let (use_match, p) = match parse_bool(s, len, p) {
            Ok(x) => x,
            Err(e) => {
                return Err(e);
            },
        };
        let p = match expect_lit(s, len, p, ",\"use_create\":") {
            Ok(x) => x,
            Err(e) => {
                return Err(e);
            },
        };
        let (use_create, p) = match parse_bool(s, len, p) {
            Ok(x) => x,
            Err(e) => {
                return Err(e);
            },
        };
        let p = match expect_lit(s, len, p, ",\"return_list\":") {
            Ok(x) => x,
            Err(e) => {
                return Err(e);
            },
        };
        let (return_list, p) = match parse_opt_items(s, len, p) {
            Ok(x) => x,
            Err(e) => {
                return Err(e);
            },
        };
        let p = match expect_lit(s, len, p, ",\"set_list\":") {
            Ok(x) => x,
            Err(e) => {
                return Err(e);
            },
        };
        let (set_list, p) = match parse_opt_items(s, len, p) {
            Ok(x) => x,
            Err(e) => {
                return Err(e);
            },
        };
        let p = match expect_lit(s, len, p, ",\"remove_list\":") {
            Ok(x) => x,
            Err(e) => {
                return Err(e);
            },
        };
        let (remove_list, p) = match parse_opt_items(s, len, p) {
            Ok(x) => x,
            Err(e) => {
                return Err(e);
            },
        };
        let p = match expect_lit(s, len, p, ",\"delete_list\":") {
            Ok(x) => x,
            Err(e) => {
                return Err(e);
            },
        };
        let (delete_list, p) = if p < len && s.get_char(p) == 'n' {
            match expect_lit(s, len, p, "null") {
                Ok(x) => (None, x),
                Err(e) => {
                    return Err(e);
                },
            }
        } else {
            let p1 = match expect_lit(s, len, p, "[") {
                Ok(x) => x,
                Err(e) => {
                    return Err(e);
                },
            };
            let (items, p2) = match parse_items(s, len, p1) {
                Ok(x) => x,
                Err(e) => {
                    return Err(e);
                },
            };
            let p3 = match expect_lit(s, len, p2, ",") {
                Ok(x) => x,
                Err(e) => {
                    return Err(e);
                },
            };
            let (detach, p4) = match parse_bool(s, len, p3) {
                Ok(x) => x,
                Err(e) => {
                    return Err(e);
                },
            };
            let p5 = match expect_lit(s, len, p4, "]") {
                Ok(x) => x,
                Err(e) => {
                    return Err(e);
                },
            };
            (Some((items, detach)), p5)
        };
        let p = match expect_lit(s, len, p, ",\"find_shortest_path\":") {
            Ok(x) => x,
            Err(e) => {
                return Err(e);
            },
        };
        let (find_shortest_path, p) = match parse_bool(s, len, p) {
            Ok(x) => x,
            Err(e) => {
                return Err(e);
            },
        };
        let p = match expect_lit(s, len, p, "}") {
            Ok(x) => x,
            Err(e) => {
                return Err(e);
            },
        };
        if p != len {
            return Err(Error::Malformed);
        }
        let q = CypherQuery {
            node,
            relation,
            next_node,
            use_match,
            use_create,
            return_list,
            set_list,
            remove_list,
            delete_list,
            find_shortest_path,
        };
        // Acceptance is exact: the parsed query must render back to the
        // input text, else the text was not canonical.
        let check = match q.serialize() {
            Ok(x) => x,
            Err(_) => {
                return Err(Error::Malformed);
            },
        };
        if str_eq(check.as_str(), s) {
            Ok(q)
        } else {
            Err(Error::Malformed)
        }
    }
}

fn parse_inner(s: &str, len: usize, pos: usize) -> (r: Result<(Inner, usize), Error>)
    requires
        len == s@.len(),
        pos <= len,
    ensures
        match r {
            Ok(p) => pos < p.1 <= len,
            Err(e) => e == Error::Malformed,
        },
{
    let p = match expect_lit(s, len, pos, "{\"labels\":") {
        Ok(x) => x,
        Err(e) => {
            return Err(e);
        },
    };
    let (labels, p) = match parse_str_array(s, len, p) {
        Ok(x) => x,
        Err(e) => {
            return Err(e);
        },
    };
    let p = match expect_lit(s, len, p, ",\"properties\":") {
        Ok(x) => x,
        Err(e) => {
            return Err(e);
        },
    };
    let (properties, p) = match parse_pair_array(s, len, p) {
        Ok(x) => x,
        Err(e) => {
            return Err(e);
        },
    };
    let p = match expect_lit(s, len, p, "}") {
        Ok(x) => x,
        Err(e) => {
            return Err(e);
        },
    };
    Ok((Inner { labels, properties }, p))
}

fn parse_row(s: &str, len: usize, pos: usize) -> (r: Result<(Row, usize), Error>)
    requires
        len == s@.len(),
        pos <= len,
    ensures
        match r {
            Ok(p) => pos < p.1 <= len,
            Err(e) => e == Error::Malformed,
        },
{
    let mut p = match expect_lit(s, len, pos, "{\"inners\":[") {
        Ok(x) => x,
        Err(e) => {
            return Err(e);
        },
    };
    let mut row = Row::new_empty();
    if p < len && s.get_char(p) == ']' {
        let p2 = match expect_lit(s, len, p, "]}") {
            Ok(x) => x,
            Err(e) => {
                return Err(e);
            },
        };
        proof {
            reveal_strlit("{\"inners\":[");
        }
        return Ok((row, p2));
    }
    while p < len
        invariant
            len == s@.len(),
            pos <= p <= len,
        decreases len - p,
    {
        let (inner, p2) = match parse_inner(s, len, p) {
            Ok(x) => x,
            Err(e) => {
                return Err(e);
            },
        };
        row.push(inner);
        if p2 >= len {
            return Err(Error::Malformed);
        }
        let c = s.get_char(p2);
        if c == ']' {
            let p3 = match expect_lit(s, len, p2, "]}") {
                Ok(x) => x,
                Err(e) => {
                    return Err(e);
                },
            };
            return Ok((row, p3));
        }
        if c != ',' {
            return Err(Error::Malformed);
        }
        p = p2 + 1;
    }
    Err(Error::Malformed)
}

impl Rows {
    /// Parses the canonical wire form of a result. Exactly the texts
    /// produced by [`Rows::serialize`] are accepted.
    pub fn deserialize(serialized: &str) -> (r: Result<Rows, Error>)
        ensures
            match r {
                Ok(rows) => spec_ser_rows(rows@) == serialized@,
                Err(e) => e == Error::Malformed,
            },
    {
        let s = serialized;
        let len = s.unicode_len();
        let mut p = match expect_lit(s, len, 0, "{\"rows\":[") {
            Ok(x) => x,
            Err(e) => {
                return Err(e);
            },
        };
        let mut out = Rows::new_empty();
        let mut closed = false;
        if p < len && s.get_char(p) == ']' {
            p = match expect_lit(s, len, p, "]}") {
                Ok(x) => x,
                Err(e) => {
                    return Err(e);
                },
            };
            closed = true;
        }
        while !closed && p < len
            invariant
                len == s@.len(),
                p <= len,
            decreases len - p,
        {
            let (row, p2) = match parse_row(s, len, p) {
                Ok(x) => x,
                Err(e) => {
                    return Err(e);
                },
            };
            out.push(row);
            if p2 >= len {
                return Err(Error::Malformed);
            }
            let c = s.get_char(p2);
            if c == ']' {
                p = match expect_lit(s, len, p2, "]}") {
                    Ok(x) => x,
                    Err(e) => {
                        return Err(e);
                    },
                };
                closed = true;
            } else {
                if c != ',' {
                    return Err(Error::Malformed);
                }
                p = p2 + 1;
            }
        }
        if !closed || p != len {
            return Err(Error::Malformed);
        }
        let check = match out.serialize() {
            Ok(x) => x,
            Err(_) => {
                return Err(Error::Malformed);
            },
        };
        if str_eq(check.as_str(), s) {
            Ok(out)
        } else {
            Err(Error::Malformed)
        }
    }
}

} // verus!

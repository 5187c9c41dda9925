use vstd::prelude::*;
use vstd::multiset::Multiset;
use vstd::relations::{sorted_by, total_ordering};
use vstd::seq_lib::lemma_multiset_commutative;
use vstd::seq_lib::lemma_sorted_unique;
use vstd::string::*;

verus! {

/// Lexicographic order on character sequences, by code point.
pub open spec fn chars_le(a: Seq<char>, b: Seq<char>) -> bool
    decreases a.len(),
{
    if a.len() == 0 {
        true
    } else if b.len() == 0 {
        false
    } else if a[0] != b[0] {
        (a[0] as u32) < (b[0] as u32)
    } else {
        chars_le(a.drop_first(), b.drop_first())
    }
}

/// The order [`chars_le`] as a relation value.
pub open spec fn string_order() -> spec_fn(Seq<char>, Seq<char>) -> bool {
    |a: Seq<char>, b: Seq<char>| chars_le(a, b)
}

/// Lexicographic order on key/value pairs: by key, then by value.
pub open spec fn pair_le(a: (Seq<char>, Seq<char>), b: (Seq<char>, Seq<char>)) -> bool {
    if a.0 != b.0 {
        chars_le(a.0, b.0)
    } else {
        chars_le(a.1, b.1)
    }
}

/// The order [`pair_le`] as a relation value.
pub open spec fn pair_order() -> spec_fn((Seq<char>, Seq<char>), (Seq<char>, Seq<char>)) -> bool {
    |a: (Seq<char>, Seq<char>), b: (Seq<char>, Seq<char>)| pair_le(a, b)
}

proof fn lemma_chars_le_refl(a: Seq<char>)
    ensures
        chars_le(a, a),
    decreases a.len(),
{
    if a.len() > 0 {
        lemma_chars_le_refl(a.drop_first());
    }
}

proof fn lemma_chars_le_connected(a: Seq<char>, b: Seq<char>)
    ensures
        chars_le(a, b) || chars_le(b, a),
    decreases a.len(),
{
    if a.len() > 0 && b.len() > 0 {
        if a[0] == b[0] {
            lemma_chars_le_connected(a.drop_first(), b.drop_first());
        } else {
            if (a[0] as u32) == (b[0] as u32) {
                vstd::utf8::char_u32_cast(a[0], a[0] as u32);
                vstd::utf8::char_u32_cast(b[0], b[0] as u32);
            }
        }
    }
}

proof fn lemma_chars_le_antisym(a: Seq<char>, b: Seq<char>)
    requires
        chars_le(a, b),
        chars_le(b, a),
    ensures
        a == b,
    decreases a.len(),
{
    if a.len() == 0 {
        assert(b.len() == 0);
        assert(a =~= b);
    } else {
        assert(b.len() > 0);
        assert(a[0] == b[0]);
        lemma_chars_le_antisym(a.drop_first(), b.drop_first());
        assert(a =~= seq![a[0]] + a.drop_first());
        assert(b =~= seq![b[0]] + b.drop_first());
    }
}

proof fn lemma_chars_le_trans(a: Seq<char>, b: Seq<char>, c: Seq<char>)
    requires
        chars_le(a, b),
        chars_le(b, c),
    ensures
        chars_le(a, c),
    decreases a.len(),
{
    if a.len() > 0 && b.len() > 0 && c.len() > 0 && a[0] == b[0] && b[0] == c[0] {
        lemma_chars_le_trans(a.drop_first(), b.drop_first(), c.drop_first());
    }
}

/// The string order is a total ordering, so sorting by it is canonical.
pub proof fn lemma_string_order_total()
    ensures
        total_ordering(string_order()),
{
    let le = string_order();
    assert forall|a: Seq<char>| #[trigger] le(a, a) by {
        lemma_chars_le_refl(a);
    }
    assert forall|a: Seq<char>, b: Seq<char>| #![trigger le(a, b), le(b, a)] le(a, b) && le(b, a)
        implies a == b by {
        lemma_chars_le_antisym(a, b);
    }
    assert forall|a: Seq<char>, b: Seq<char>, c: Seq<char>| #![trigger le(a, b), le(b, c)] le(a, b)
        && le(b, c) implies le(a, c) by {
        lemma_chars_le_trans(a, b, c);
    }
    assert forall|a: Seq<char>, b: Seq<char>| #![trigger le(a, b), le(b, a)] le(a, b) || le(b, a)
        by {
        lemma_chars_le_connected(a, b);
    }
}

/// The pair order is a total ordering, so sorting by it is canonical.
pub proof fn lemma_pair_order_total()
    ensures
        total_ordering(pair_order()),
{
    let le = pair_order();
    assert forall|a: (Seq<char>, Seq<char>)| #[trigger] le(a, a) by {
        lemma_chars_le_refl(a.1);
    }
    assert forall|a: (Seq<char>, Seq<char>), b: (Seq<char>, Seq<char>)| #![trigger le(a, b), le(b, a)]
        le(a, b) && le(b, a) implies a == b by {
        if a.0 != b.0 {
            lemma_chars_le_antisym(a.0, b.0);
        } else {
            lemma_chars_le_antisym(a.1, b.1);
        }
    }
    assert forall|a: (Seq<char>, Seq<char>), b: (Seq<char>, Seq<char>), c: (
        Seq<char>,
        Seq<char>,
    )| #![trigger le(a, b), le(b, c)] le(a, b) && le(b, c) implies le(a, c) by {
        if a.0 == b.0 && b.0 == c.0 {
            lemma_chars_le_trans(a.1, b.1, c.1);
        } else if a.0 == b.0 {
            // a.0 == b.0 != c.0
            assert(chars_le(b.0, c.0));
        } else if b.0 == c.0 {
            assert(chars_le(a.0, b.0));
        } else {
            lemma_chars_le_trans(a.0, b.0, c.0);
            if a.0 == c.0 {
                lemma_chars_le_antisym(a.0, b.0);
            }
        }
    }
    assert forall|a: (Seq<char>, Seq<char>), b: (Seq<char>, Seq<char>)| #![trigger le(a, b), le(b, a)]
        le(a, b) || le(b, a) by {
        if a.0 == b.0 {
            lemma_chars_le_connected(a.1, b.1);
        } else {
            lemma_chars_le_connected(a.0, b.0);
        }
    }
}

/// Compares two strings in the order [`chars_le`].
pub fn str_le(a: &str, b: &str) -> (r: bool)
    ensures
        r == chars_le(a@, b@),
{
    let a_len = a.unicode_len();
    let b_len = b.unicode_len();
    let mut i: usize = 0;
    proof {
        assert(a@.skip(0) =~= a@);
        assert(b@.skip(0) =~= b@);
    }
    loop
        invariant
            0 <= i <= a_len,
            i <= b_len,
            a_len == a@.len(),
            b_len == b@.len(),
            chars_le(a@, b@) == chars_le(a@.skip(i as int), b@.skip(i as int)),
        decreases a_len - i,
    {
        if i >= a_len {
            proof {
                assert(a@.skip(i as int).len() == 0);
            }
            return true;
        }
        if i >= b_len {
            proof {
                assert(b@.skip(i as int).len() == 0);
                assert(a@.skip(i as int).len() > 0);
            }
            return false;
        }
        let ca = a.get_char(i);
        let cb = b.get_char(i);
        if ca != cb {
            proof {
                assert(a@.skip(i as int)[0] == a@[i as int]);
                assert(b@.skip(i as int)[0] == b@[i as int]);
            }
            return (ca as u32) < (cb as u32);
        }
        proof {
            assert(a@.skip(i as int)[0] == a@[i as int]);
            assert(b@.skip(i as int)[0] == b@[i as int]);
            assert(a@.skip(i as int).drop_first() =~= a@.skip(i + 1 as int));
            assert(b@.skip(i as int).drop_first() =~= b@.skip(i + 1 as int));
        }
        i = i + 1;
    }
}

/// Whether two strings hold the same characters.
pub fn str_eq(a: &str, b: &str) -> (r: bool)
    ensures
        r == (a@ == b@),
{
    let le1 = str_le(a, b);
    let le2 = str_le(b, a);
    proof {
        if chars_le(a@, b@) && chars_le(b@, a@) {
            lemma_chars_le_antisym(a@, b@);
        }
        if a@ == b@ {
            lemma_chars_le_refl(a@);
        }
    }
    le1 && le2
}

/// Inserting an element anywhere adds exactly it to the multiset.
proof fn lemma_insert_multiset<A>(s: Seq<A>, x: A, j: int)
    requires
        0 <= j <= s.len(),
    ensures
        s.insert(j, x).to_multiset() =~= s.to_multiset().insert(x),
{
    broadcast use vstd::seq_lib::group_to_multiset_ensures;

    let pre = s.subrange(0, j);
    let post = s.subrange(j, s.len() as int);
    assert(s.insert(j, x) =~= pre + (seq![x] + post));
    assert(s =~= pre + post);
    lemma_multiset_commutative(pre, seq![x] + post);
    lemma_multiset_commutative(seq![x], post);
    lemma_multiset_commutative(pre, post);
    assert(seq![x].to_multiset() =~= Multiset::empty().insert(x)) by {
        assert(seq![x] =~= Seq::<A>::empty().push(x));
        assert(Seq::<A>::empty().to_multiset() =~= Multiset::empty());
    }
}

/// Inserting at a position that respects the order keeps the sequence sorted.
proof fn lemma_insert_sorted<A>(s: Seq<A>, x: A, j: int, leq: spec_fn(A, A) -> bool)
    requires
        total_ordering(leq),
        sorted_by(s, leq),
        0 <= j <= s.len(),
        forall|k: int| 0 <= k < j ==> leq(#[trigger] s[k], x),
        j < s.len() ==> !leq(s[j], x),
    ensures
        sorted_by(s.insert(j, x), leq),
{
    let t = s.insert(j, x);
    assert forall|p: int, q: int| 0 <= p < q < t.len() implies leq(t[p], t[q]) by {
        if p < j && q == j {
            assert(t[p] == s[p]);
            assert(t[q] == x);
        } else if p == j && q > j {
            assert(t[p] == x);
            assert(t[q] == s[q - 1]);
            if j < s.len() {
                assert(!leq(s[j], x));
                assert(leq(x, s[j]));
                if q - 1 == j {
                } else {
                    assert(leq(s[j], s[q - 1]));
                }
            }
        } else if p < j && q > j {
            assert(t[p] == s[p]);
            assert(t[q] == s[q - 1]);
            if p == q - 1 {
                assert(leq(s[p], x));
                if j < s.len() {
                    assert(leq(x, s[j]));
                }
            } else {
                assert(leq(s[p], s[q - 1]));
            }
        } else if p >= j + 1 {
            assert(t[p] == s[p - 1]);
            assert(t[q] == s[q - 1]);
            assert(leq(s[p - 1], s[q - 1]));
        } else {
            assert(q < j);
            assert(t[p] == s[p]);
            assert(t[q] == s[q]);
        }
    }
}

fn find_pos_str(out: &Vec<String>, x: &str) -> (j: usize)
    ensures
        j <= out.len(),
        forall|k: int| 0 <= k < j ==> chars_le(#[trigger] out.deep_view()[k], x@),
        j < out.len() ==> !chars_le(out.deep_view()[j as int], x@),
{
    let mut j: usize = 0;
    while j < out.len()
        invariant
            0 <= j <= out.len(),
            forall|k: int| 0 <= k < j ==> chars_le(#[trigger] out.deep_view()[k], x@),
        decreases out.len() - j,
    {
        if !str_le(out[j].as_str(), x) {
            return j;
        }
        j = j + 1;
    }
    j
}

/// Sorts strings into the canonical order given by [`chars_le`].
pub fn sort_strings(v: &Vec<String>) -> (r: Vec<String>)
    ensures
        r.deep_view() == v.deep_view().sort_by(string_order()),
{
    let ghost le = string_order();
    proof {
        lemma_string_order_total();
    }
    let mut out: Vec<String> = Vec::new();
    let mut i: usize = 0;
    proof {
        assert(out.deep_view() =~= v.deep_view().subrange(0, 0));
    }
    while i < v.len()
        invariant
            0 <= i <= v.len(),
            total_ordering(le),
            le == string_order(),
            sorted_by(out.deep_view(), le),
            out.deep_view().to_multiset() =~= v.deep_view().subrange(0, i as int).to_multiset(),
        decreases v.len() - i,
    {
        broadcast use vstd::seq_lib::group_to_multiset_ensures;

        let x = v[i].clone();
        let j = find_pos_str(&out, x.as_str());
        let ghost prev = out.deep_view();
        out.insert(j, x);
        proof {
            assert(out.deep_view() =~= prev.insert(j as int, x@));
            lemma_insert_sorted(prev, x@, j as int, le);
            lemma_insert_multiset(prev, x@, j as int);
            assert(v.deep_view().subrange(0, i + 1 as int) =~= v.deep_view().subrange(0, i as int)
                .push(v.deep_view()[i as int]));
        }
        i = i + 1;
    }
    proof {
        assert(v.deep_view().subrange(0, v.len() as int) =~= v.deep_view());
        v.deep_view().lemma_sort_by_ensures(le);
        lemma_sorted_unique(out.deep_view(), v.deep_view().sort_by(le), le);
    }
    out
}

fn pair_le_exec(a: &(String, String), b: &(String, String)) -> (r: bool)
    ensures
        r == pair_le(a.deep_view(), b.deep_view()),
{
    if str_eq(a.0.as_str(), b.0.as_str()) {
        str_le(a.1.as_str(), b.1.as_str())
    } else {
        str_le(a.0.as_str(), b.0.as_str())
    }
}

fn find_pos_pair(out: &Vec<(String, String)>, x: &(String, String)) -> (j: usize)
    ensures
        j <= out.len(),
        forall|k: int| 0 <= k < j ==> pair_le(#[trigger] out.deep_view()[k], x.deep_view()),
        j < out.len() ==> !pair_le(out.deep_view()[j as int], x.deep_view()),
{
    let mut j: usize = 0;
    while j < out.len()
        invariant
            0 <= j <= out.len(),
            forall|k: int| 0 <= k < j ==> pair_le(#[trigger] out.deep_view()[k], x.deep_view()),
        decreases out.len() - j,
    {
        if !pair_le_exec(&out[j], x) {
            return j;
        }
        j = j + 1;
    }
    j
}

/// Sorts key/value pairs into the canonical order given by [`pair_le`].
pub fn sort_props(v: &Vec<(String, String)>) -> (r: Vec<(String, String)>)
    ensures
        r.deep_view() == v.deep_view().sort_by(pair_order()),
{
    let ghost le = pair_order();
    proof {
        lemma_pair_order_total();
    }
    let mut out: Vec<(String, String)> = Vec::new();
    let mut i: usize = 0;
    proof {
        assert(out.deep_view() =~= v.deep_view().subrange(0, 0));
    }
    while i < v.len()
        invariant
            0 <= i <= v.len(),
            total_ordering(le),
            le == pair_order(),
            sorted_by(out.deep_view(), le),
            out.deep_view().to_multiset() =~= v.deep_view().subrange(0, i as int).to_multiset(),
        decreases v.len() - i,
    {
        broadcast use vstd::seq_lib::group_to_multiset_ensures;

        let p = &v[i];
        let x = (p.0.clone(), p.1.clone());
        let j = find_pos_pair(&out, &x);
        let ghost prev = out.deep_view();
        let ghost xv = x.deep_view();
        out.insert(j, x);
        proof {
            assert(out.deep_view() =~= prev.insert(j as int, xv));
            lemma_insert_sorted(prev, xv, j as int, le);
            lemma_insert_multiset(prev, xv, j as int);
            assert(v.deep_view().subrange(0, i + 1 as int) =~= v.deep_view().subrange(0, i as int)
                .push(v.deep_view()[i as int]));
        }
        i = i + 1;
    }
    proof {
        assert(v.deep_view().subrange(0, v.len() as int) =~= v.deep_view());
        v.deep_view().lemma_sort_by_ensures(le);
        lemma_sorted_unique(out.deep_view(), v.deep_view().sort_by(le), le);
    }
    out
}

} // verus!

use vstd::prelude::*;

verus! {

/// Clones a vector of strings, preserving its contents.
pub fn clone_string_vec(v: &Vec<String>) -> (res: Vec<String>)
    ensures
        res.deep_view() == v.deep_view(),
{
    let mut res: Vec<String> = Vec::new();
    let mut i: usize = 0;
    while i < v.len()
        invariant
            0 <= i <= v.len(),
            res.deep_view() =~= v.deep_view().subrange(0, i as int),
        decreases v.len() - i,
    {
        let ghost prev = res.deep_view();
        res.push(v[i].clone());
        proof {
            assert(res.deep_view() =~= prev.push(v.deep_view()[i as int]));
            assert(prev.push(v.deep_view()[i as int]) =~= v.deep_view().subrange(0, i + 1 as int));
        }
        i = i + 1;
    }
    proof {
        assert(v.deep_view().subrange(0, v.len() as int) =~= v.deep_view());
    }
    res
}

/// Clones a vector of key/value string pairs, preserving its contents.
pub fn clone_prop_vec(v: &Vec<(String, String)>) -> (res: Vec<(String, String)>)
    ensures
        res.deep_view() == v.deep_view(),
{
    let mut res: Vec<(String, String)> = Vec::new();
    let mut i: usize = 0;
    while i < v.len()
        invariant
            0 <= i <= v.len(),
            res.deep_view() =~= v.deep_view().subrange(0, i as int),
        decreases v.len() - i,
    {
        let ghost prev = res.deep_view();
        let p = &v[i];
        res.push((p.0.clone(), p.1.clone()));
        proof {
            assert(res.deep_view() =~= prev.push(v.deep_view()[i as int]));
            assert(prev.push(v.deep_view()[i as int]) =~= v.deep_view().subrange(0, i + 1 as int));
        }
        i = i + 1;
    }
    proof {
        assert(v.deep_view().subrange(0, v.len() as int) =~= v.deep_view());
    }
    res
}

/// Clones an optional string, preserving its contents.
pub fn clone_opt_string(v: &Option<String>) -> (res: Option<String>)
    ensures
        res.deep_view() == v.deep_view(),
{
    match v {
        Some(s) => Some(s.clone()),
        None => None,
    }
}

} // verus!

use vstd::prelude::*;

verus! {

broadcast use
    vstd::std_specs::vec::axiom_vec_index_decreases,
    vstd::std_specs::vec::axiom_vec_decreases_to_view,
    vstd::seq::axiom_seq_index_decreases;

/// A JSON document, as the codec's intermediate shape. Only the forms that
/// the wire format uses are represented: numbers are non-negative integers
/// (node identifiers are the only numbers the format carries).
#[derive(Debug, PartialEq)]
pub enum Json {
    Null,
    Bool(bool),
    Int(u64),
    Str(String),
    Arr(Vec<Json>),
    Obj(Vec<(String, Json)>),
}

/// Mathematical model of a JSON document.
#[verifier::ext_equal]
pub ghost enum JsonV {
    Null,
    Bool(bool),
    Int(u64),
    Str(Seq<char>),
    Arr(Seq<JsonV>),
    Obj(Seq<(Seq<char>, JsonV)>),
}

/// Model of an array's items.
pub open spec fn arr_view(s: Seq<Json>) -> Seq<JsonV>
    decreases s,
{
    Seq::new(s.len(), |i: int| if 0 <= i < s.len() { json_view(s[i]) } else { arbitrary() })
}

/// Model of an object's key/value pairs, in stored order.
pub open spec fn obj_view(s: Seq<(String, Json)>) -> Seq<(Seq<char>, JsonV)>
    decreases s,
{
    Seq::new(
        s.len(),
        |i: int|
            if 0 <= i < s.len() {
                (s[i].0@, json_view(s[i].1))
            } else {
                arbitrary()
            },
    )
}

pub open spec fn json_view(j: Json) -> JsonV
    decreases j,
{
    match j {
        Json::Null => JsonV::Null,
        Json::Bool(b) => JsonV::Bool(b),
        Json::Int(n) => JsonV::Int(n),
        Json::Str(s) => JsonV::Str(s@),
        Json::Arr(v) => JsonV::Arr(arr_view(v@)),
        Json::Obj(v) => JsonV::Obj(obj_view(v@)),
    }
}

impl View for Json {
    type V = JsonV;

    open spec fn view(&self) -> JsonV {
        json_view(*self)
    }
}

/// The value under the first occurrence of key `k` in an object's pair list,
/// if any. Later occurrences of the same key are shadowed.
pub open spec fn spec_lookup(pairs: Seq<(Seq<char>, JsonV)>, k: Seq<char>) -> Option<JsonV>
    decreases pairs.len(),
{
    if pairs.len() == 0 {
        None
    } else if pairs[0].0 == k {
        Some(pairs[0].1)
    } else {
        spec_lookup(pairs.drop_first(), k)
    }
}

/// First index at which key `k` occurs in an object's pair list, or -1.
pub open spec fn spec_lookup_idx(pairs: Seq<(Seq<char>, JsonV)>, k: Seq<char>) -> int
    decreases pairs.len(),
{
    if pairs.len() == 0 {
        -1
    } else if pairs[0].0 == k {
        0
    } else {
        let r = spec_lookup_idx(pairs.drop_first(), k);
        if r == -1 {
            -1
        } else {
            r + 1
        }
    }
}

pub proof fn lemma_lookup_idx(pairs: Seq<(Seq<char>, JsonV)>, k: Seq<char>)
    ensures
        spec_lookup(pairs, k) is Some <==> 0 <= spec_lookup_idx(pairs, k) < pairs.len(),
        spec_lookup(pairs, k) is Some ==> spec_lookup(pairs, k) == Some(
            pairs[spec_lookup_idx(pairs, k)].1,
        ) && pairs[spec_lookup_idx(pairs, k)].0 == k,
        spec_lookup(pairs, k) is None ==> spec_lookup_idx(pairs, k) == -1,
    decreases pairs.len(),
{
    if pairs.len() != 0 && pairs[0].0 != k {
        lemma_lookup_idx(pairs.drop_first(), k);
    }
}

/// The first index holding key `k` determines the lookup result.
pub proof fn lemma_lookup_first(pairs: Seq<(Seq<char>, JsonV)>, k: Seq<char>, i: int)
    requires
        0 <= i < pairs.len(),
        pairs[i].0 == k,
        forall|q: int| 0 <= q < i ==> #[trigger] pairs[q].0 != k,
    ensures
        spec_lookup_idx(pairs, k) == i,
        spec_lookup(pairs, k) == Some(pairs[i].1),
    decreases pairs.len(),
{
    if i > 0 {
        assert(pairs[0].0 != k);
        lemma_lookup_first(pairs.drop_first(), k, i - 1);
    }
}

/// No index holds key `k`, so the lookup misses.
pub proof fn lemma_lookup_none(pairs: Seq<(Seq<char>, JsonV)>, k: Seq<char>)
    requires
        forall|q: int| 0 <= q < pairs.len() ==> #[trigger] pairs[q].0 != k,
    ensures
        spec_lookup_idx(pairs, k) == -1,
        spec_lookup(pairs, k) is None,
    decreases pairs.len(),
{
    if pairs.len() > 0 {
        lemma_lookup_none(pairs.drop_first(), k);
    }
}

/// Index of the first pair whose key is `k`: the executable counterpart of
/// `spec_lookup_idx` / `spec_lookup`.
pub fn lookup_idx(pairs: &Vec<(String, Json)>, k: &String) -> (r: Option<usize>)
    ensures
        match r {
            Some(i) => i < pairs@.len() && spec_lookup_idx(obj_view(pairs@), k@) == i as int
                && obj_view(pairs@)[i as int].0 == k@ && spec_lookup(obj_view(pairs@), k@)
                == Some(obj_view(pairs@)[i as int].1),
            None => spec_lookup(obj_view(pairs@), k@) is None && spec_lookup_idx(
                obj_view(pairs@),
                k@,
            ) == -1,
        },
{
    let ghost m = obj_view(pairs@);
    let n = pairs.len();
    for i in 0..n
        invariant
            n == pairs.len(),
            m == obj_view(pairs@),
            forall|q: int| 0 <= q < i ==> #[trigger] m[q].0 != k@,
    {
        if pairs[i].0.eq(k) {
            proof {
                assert(m[i as int].0 == k@);
                lemma_lookup_first(m, k@, i as int);
            }
            return Some(i);
        }
        proof {
            assert(m[i as int].0 != k@);
        }
    }
    proof {
        lemma_lookup_none(m, k@);
    }
    None
}

} // verus!

//! Values decoded from a Python pickle stream, and lookups in them.
//!
//! Ren'Py stores both compiled scripts and archive indexes as pickles. The
//! logic of this crate reads those values through [`PickleValue`]; its
//! mathematical model is [`PickleTerm`], reached through `@`.
use vstd::prelude::*;
use serde_pickle::{DeOptions, HashableValue, Value};

verus! {

/// A value of the pickle data model.
///
/// Integers beyond 64 bits keep their decimal text and floats their IEEE-754
/// bit pattern: nothing in this crate computes with either.
#[derive(Debug)]
pub enum PickleValue {
    NoneValue,
    Bool(bool),
    I64(i64),
    Int(String),
    Float(u64),
    Bytes(Vec<u8>),
    Str(String),
    List(Vec<PickleValue>),
    Tuple(Vec<PickleValue>),
    SetOf(Vec<PickleValue>),
    FrozenSet(Vec<PickleValue>),
    Dict(Vec<(PickleValue, PickleValue)>),
}

/// The mathematical model of a [`PickleValue`].
pub enum PickleTerm {
    NoneValue,
    Bool(bool),
    I64(i64),
    Int(Seq<char>),
    Float(u64),
    Bytes(Seq<u8>),
    Str(Seq<char>),
    List(Seq<PickleTerm>),
    Tuple(Seq<PickleTerm>),
    SetOf(Seq<PickleTerm>),
    FrozenSet(Seq<PickleTerm>),
    Dict(Seq<(PickleTerm, PickleTerm)>),
}

/// The model of a value.
pub open spec fn term_of(v: PickleValue) -> PickleTerm
    decreases v,
{
    match v {
        PickleValue::NoneValue => PickleTerm::NoneValue,
        PickleValue::Bool(b) => PickleTerm::Bool(b),
        PickleValue::I64(i) => PickleTerm::I64(i),
        PickleValue::Int(s) => PickleTerm::Int(s@),
        PickleValue::Float(bits) => PickleTerm::Float(bits),
        PickleValue::Bytes(b) => PickleTerm::Bytes(b@),
        PickleValue::Str(s) => PickleTerm::Str(s@),
        PickleValue::List(xs) => PickleTerm::List(terms_of(xs)),
        PickleValue::Tuple(xs) => PickleTerm::Tuple(terms_of(xs)),
        PickleValue::SetOf(xs) => PickleTerm::SetOf(terms_of(xs)),
        PickleValue::FrozenSet(xs) => PickleTerm::FrozenSet(terms_of(xs)),
        PickleValue::Dict(ps) => PickleTerm::Dict(pair_terms_of(ps)),
    }
}

/// The models of the items of a list of values.
pub open spec fn terms_of(xs: Vec<PickleValue>) -> Seq<PickleTerm>
    decreases xs,
{
    proof {
        broadcast use vstd::std_specs::vec::group_vec_axioms;

    }
    Seq::new(
        xs@.len(),
        |i: int|
            if 0 <= i < xs@.len() {
                term_of(xs[i])
            } else {
                PickleTerm::NoneValue
            },
    )
}

/// The models of the entries of a dictionary.
pub open spec fn pair_terms_of(ps: Vec<(PickleValue, PickleValue)>) -> Seq<(PickleTerm, PickleTerm)>
    decreases ps,
{
    proof {
        broadcast use vstd::std_specs::vec::group_vec_axioms;

        assert forall|i: int| 0 <= i < ps@.len() implies decreases_to!(ps => ps[i].0) && decreases_to!(ps => ps[i].1) by {
            assert(decreases_to!(ps => ps[i]));
        }
    }
    Seq::new(
        ps@.len(),
        |i: int|
            if 0 <= i < ps@.len() {
                (term_of(ps[i].0), term_of(ps[i].1))
            } else {
                (PickleTerm::NoneValue, PickleTerm::NoneValue)
            },
    )
}

impl View for PickleValue {
    type V = PickleTerm;

    open spec fn view(&self) -> PickleTerm {
        term_of(*self)
    }
}

/// The position of the first entry of `entries` whose key is the string
/// `key`, if any: what a Python `dict` lookup by a string finds.
pub open spec fn dict_index(entries: Seq<(PickleTerm, PickleTerm)>, key: Seq<char>) -> Option<int>
    decreases entries.len(),
{
    if entries.len() == 0 {
        None
    } else if entries[0].0 == PickleTerm::Str(key) {
        Some(0)
    } else {
        match dict_index(entries.drop_first(), key) {
            Some(j) => Some(j + 1),
            None => None,
        }
    }
}

/// The value stored under the string `key`, if any.
pub open spec fn dict_get(entries: Seq<(PickleTerm, PickleTerm)>, key: Seq<char>) -> Option<PickleTerm> {
    match dict_index(entries, key) {
        Some(j) => Some(entries[j].1),
        None => None,
    }
}

/// Whether some entry has the string `key`.
pub open spec fn dict_has(entries: Seq<(PickleTerm, PickleTerm)>, key: Seq<char>) -> bool {
    dict_index(entries, key) is Some
}

/// The string stored under `key`, if the value there is a string.
pub open spec fn dict_get_str(entries: Seq<(PickleTerm, PickleTerm)>, key: Seq<char>) -> Option<Seq<char>> {
    match dict_get(entries, key) {
        Some(PickleTerm::Str(s)) => Some(s),
        _ => None,
    }
}

/// `dict_index` finds the first entry keyed by the string, and only that.
pub proof fn lemma_dict_index(entries: Seq<(PickleTerm, PickleTerm)>, key: Seq<char>)
    ensures
        match dict_index(entries, key) {
            Some(j) => {
                &&& 0 <= j < entries.len()
                &&& entries[j].0 == PickleTerm::Str(key)
                &&& forall|k: int| 0 <= k < j ==> entries[k].0 != PickleTerm::Str(key)
            },
            None => forall|k: int| 0 <= k < entries.len() ==> entries[k].0 != PickleTerm::Str(key),
        },
    decreases entries.len(),
{
    if entries.len() > 0 && entries[0].0 != PickleTerm::Str(key) {
        let rest = entries.drop_first();
        lemma_dict_index(rest, key);
        assert forall|k: int| 1 <= k < entries.len() implies entries[k] == rest[k - 1] by {}
    }
}

/// Looking a key up in a dictionary with one more entry at its end finds
/// what the shorter one finds, or else that last entry.
pub proof fn lemma_dict_index_push(d: Seq<(PickleTerm, PickleTerm)>, key: Seq<char>)
    requires
        d.len() > 0,
    ensures
        dict_index(d, key) == match dict_index(d.drop_last(), key) {
            Some(j) => Some(j),
            None => if d.last().0 == PickleTerm::Str(key) {
                Some(d.len() - 1)
            } else {
                None::<int>
            },
        },
{
    let r = d.drop_last();
    lemma_dict_index(d, key);
    lemma_dict_index(r, key);
    assert forall|k: int| 0 <= k < r.len() implies #[trigger] r[k] == d[k] by {}
    match dict_index(r, key) {
        Some(j) => {
            assert(d[j].0 == PickleTerm::Str(key));
            match dict_index(d, key) {
                Some(i) => {
                    if i < j {
                        assert(r[i] == d[i]);
                    }
                    if j < i {
                        assert(d[j].0 != PickleTerm::Str(key));
                    }
                },
                None => {},
            }
        },
        None => {
            match dict_index(d, key) {
                Some(i) => {
                    if i < d.len() - 1 {
                        assert(r[i] == d[i]);
                    }
                },
                None => {
                    if d.last().0 == PickleTerm::Str(key) {
                        assert(d[d.len() - 1].0 != PickleTerm::Str(key));
                    }
                },
            }
        },
    }
}

/// The model of a list of values, item by item.
pub proof fn lemma_terms_of(xs: Vec<PickleValue>)
    ensures
        terms_of(xs).len() == xs@.len(),
        forall|i: int| 0 <= i < xs@.len() ==> #[trigger] terms_of(xs)[i] == xs@[i]@,
{
}

/// The model of the entries of a dictionary, entry by entry.
pub proof fn lemma_pair_terms_of(ps: Vec<(PickleValue, PickleValue)>)
    ensures
        pair_terms_of(ps).len() == ps@.len(),
        forall|i: int|
            0 <= i < ps@.len() ==> #[trigger] pair_terms_of(ps)[i] == (ps@[i].0@, ps@[i].1@),
{
}

/// Whether two strings are equal.
pub(crate) fn same_str(a: &str, b: &str) -> (r: bool)
    ensures
        r == (a@ == b@),
{
    let x: String = a.to_owned();
    let y: String = b.to_owned();
    x == y
}

/// Finds the first entry of a dictionary whose key is the string `key`.
pub fn dict_position(entries: &Vec<(PickleValue, PickleValue)>, key: &str) -> (r: Option<usize>)
    ensures
        match r {
            Some(i) => dict_index(pair_terms_of(*entries), key@) == Some(i as int),
            None => dict_index(pair_terms_of(*entries), key@) is None,
        },
{
    let ghost terms = pair_terms_of(*entries);
    proof {
        lemma_pair_terms_of(*entries);
        lemma_dict_index(terms, key@);
    }
    let mut i: usize = 0;
    while i < entries.len()
        invariant
            i <= entries@.len(),
            terms == pair_terms_of(*entries),
            terms.len() == entries@.len(),
            forall|k: int| 0 <= k < i ==> terms[k].0 != PickleTerm::Str(key@),
        decreases entries@.len() - i,
    {
        let found = match &entries[i].0 {
            PickleValue::Str(s) => same_str(s.as_str(), key),
            _ => false,
        };
        proof {
            lemma_pair_terms_of(*entries);
        }
        if found {
            assert(terms[i as int].0 == PickleTerm::Str(key@));
            proof {
                lemma_dict_index(terms, key@);
            }
            return Some(i);
        }
        assert(terms[i as int].0 != PickleTerm::Str(key@));
        i = i + 1;
    }
    proof {
        lemma_dict_index(terms, key@);
    }
    None
}

/// The value stored under the string `key` in a dictionary.
pub fn dict_lookup<'a>(entries: &'a Vec<(PickleValue, PickleValue)>, key: &str) -> (r: Option<&'a PickleValue>)
    ensures
        match r {
            Some(v) => dict_get(pair_terms_of(*entries), key@) == Some(v@),
            None => dict_get(pair_terms_of(*entries), key@) is None,
        },
{
    proof {
        lemma_pair_terms_of(*entries);
        lemma_dict_index(pair_terms_of(*entries), key@);
    }
    match dict_position(entries, key) {
        Some(i) => Some(&entries[i].1),
        None => None,
    }
}

/// A copy of the string stored under `key`, if the value there is a string.
pub fn dict_lookup_str(entries: &Vec<(PickleValue, PickleValue)>, key: &str) -> (r: Option<String>)
    ensures
        match r {
            Some(s) => dict_get_str(pair_terms_of(*entries), key@) == Some(s@),
            None => dict_get_str(pair_terms_of(*entries), key@) is None,
        },
{
    match dict_lookup(entries, key) {
        Some(PickleValue::Str(s)) => Some(s.clone()),
        _ => None,
    }
}

impl PickleValue {
    /// A copy of the value, with the same model.
    pub fn deep_copy(&self) -> (r: PickleValue)
        ensures
            r@ == self@,
        decreases self,
    {
        match self {
            PickleValue::NoneValue => PickleValue::NoneValue,
            PickleValue::Bool(b) => PickleValue::Bool(*b),
            PickleValue::I64(i) => PickleValue::I64(*i),
            PickleValue::Int(s) => PickleValue::Int(s.clone()),
            PickleValue::Float(bits) => PickleValue::Float(*bits),
            PickleValue::Bytes(b) => PickleValue::Bytes(copy_bytes(b)),
            PickleValue::Str(s) => PickleValue::Str(s.clone()),
            PickleValue::List(xs) => PickleValue::List(copy_values(xs)),
            PickleValue::Tuple(xs) => PickleValue::Tuple(copy_values(xs)),
            PickleValue::SetOf(xs) => PickleValue::SetOf(copy_values(xs)),
            PickleValue::FrozenSet(xs) => PickleValue::FrozenSet(copy_values(xs)),
            PickleValue::Dict(ps) => PickleValue::Dict(copy_entries(ps)),
        }
    }
}

/// A copy of a byte string.
pub fn copy_bytes(b: &Vec<u8>) -> (r: Vec<u8>)
    ensures
        r@ == b@,
{
    vstd::slice::slice_to_vec(b.as_slice())
}

/// A copy of a list of values, item by item.
pub fn copy_values(xs: &Vec<PickleValue>) -> (r: Vec<PickleValue>)
    ensures
        terms_of(r) == terms_of(*xs),
    decreases xs,
{
    let mut out: Vec<PickleValue> = Vec::new();
    let mut i: usize = 0;
    while i < xs.len()
        invariant
            i <= xs@.len(),
            out@.len() == i,
            forall|j: int| 0 <= j < i ==> #[trigger] out@[j]@ == xs@[j]@,
        decreases xs@.len() - i,
    {
        proof {
            broadcast use vstd::std_specs::vec::group_vec_axioms;

            assert(decreases_to!(*xs => xs[i as int]));
        }
        let c = xs[i].deep_copy();
        out.push(c);
        i = i + 1;
    }
    proof {
        lemma_terms_of(out);
        lemma_terms_of(*xs);
    }
    assert(terms_of(out) =~= terms_of(*xs));
    out
}

/// A copy of the entries of a dictionary, entry by entry.
pub fn copy_entries(ps: &Vec<(PickleValue, PickleValue)>) -> (r: Vec<(PickleValue, PickleValue)>)
    ensures
        pair_terms_of(r) == pair_terms_of(*ps),
    decreases ps,
{
    let mut out: Vec<(PickleValue, PickleValue)> = Vec::new();
    let mut i: usize = 0;
    while i < ps.len()
        invariant
            i <= ps@.len(),
            out@.len() == i,
            forall|j: int|
                0 <= j < i ==> #[trigger] out@[j].0@ == ps@[j].0@ && out@[j].1@ == ps@[j].1@,
        decreases ps@.len() - i,
    {
        proof {
            broadcast use vstd::std_specs::vec::group_vec_axioms;

            assert(decreases_to!(*ps => ps[i as int]));
            assert(decreases_to!(*ps => ps[i as int].0));
            assert(decreases_to!(*ps => ps[i as int].1));
        }
        let k = ps[i].0.deep_copy();
        let v = ps[i].1.deep_copy();
        out.push((k, v));
        i = i + 1;
    }
    proof {
        lemma_pair_terms_of(out);
        lemma_pair_terms_of(*ps);
    }
    assert(pair_terms_of(out) =~= pair_terms_of(*ps));
    out
}

#[verifier::external_type_specification]
#[verifier::external_body]
pub struct ExSerdePickleValue(Value);

#[verifier::external_type_specification]
#[verifier::external_body]
pub struct ExSerdePickleHashableValue(HashableValue);

/// The value `serde_pickle::from_slice` decodes from `data` with default
/// options, as a [`PickleTerm`]; `None` where it reports an error.
pub uninterp spec fn unpickled(data: Seq<u8>) -> Option<PickleTerm>;

/// The value `serde_pickle::from_slice` decodes from `data` with
/// `DeOptions::new().replace_unresolved_globals()`, as a [`PickleTerm`];
/// `None` where it reports an error.
pub uninterp spec fn unpickled_script(data: Seq<u8>) -> Option<PickleTerm>;

/// Decodes a pickle with `serde_pickle::from_slice` and default options, into
/// `serde_pickle::Value`, and converts that value variant for variant.
/// Trusted: the result is `unpickled` of the input, `None` where the decoder
/// reports an error.
#[verifier::external_body]
pub(crate) fn unpickle(data: &[u8]) -> (r: Option<PickleValue>)
    ensures
        match r {
            Some(v) => unpickled(data@) == Some(v@),
            None => unpickled(data@) is None,
        },
{
    match serde_pickle::from_slice::<Value>(data, DeOptions::new()) {
        Ok(v) => Some(from_serde_value(&v)),
        Err(_) => None,
    }
}

/// Decodes a pickle with `serde_pickle::from_slice` and
/// `DeOptions::new().replace_unresolved_globals()`, into `serde_pickle::Value`,
/// and converts that value variant for variant. Trusted: the result is
/// `unpickled_script` of the input, `None` where the decoder reports an error.
#[verifier::external_body]
pub(crate) fn unpickle_script(data: &[u8]) -> (r: Option<PickleValue>)
    ensures
        match r {
            Some(v) => unpickled_script(data@) == Some(v@),
            None => unpickled_script(data@) is None,
        },
{
    let options = DeOptions::new().replace_unresolved_globals();
    match serde_pickle::from_slice::<Value>(data, options) {
        Ok(v) => Some(from_serde_value(&v)),
        Err(_) => None,
    }
}

/// Converts a `serde_pickle::Value` variant for variant: the scalars here
/// (a big integer to its decimal text, a float to its bits), the containers
/// in `from_serde_container`. Used only inside the two trusted decoders
/// above.
#[verifier::external_body]
fn from_serde_value(v: &Value) -> PickleValue {
    match v {
        Value::None => PickleValue::NoneValue,
        Value::Bool(b) => PickleValue::Bool(*b),
        Value::I64(i) => PickleValue::I64(*i),
        Value::Int(n) => PickleValue::Int(n.to_string()),
        Value::F64(f) => PickleValue::Float(f.to_bits()),
        Value::Bytes(b) => PickleValue::Bytes(b.clone()),
        Value::String(s) => PickleValue::Str(s.clone()),
        _ => from_serde_container(v),
    }
}

/// Converts a list, tuple, set or dictionary of `serde_pickle` item for
/// item. Used only inside the two trusted decoders above.
#[verifier::external_body]
fn from_serde_container(v: &Value) -> PickleValue {
    match v {
        Value::List(xs) => PickleValue::List(xs.iter().map(from_serde_value).collect()),
        Value::Tuple(xs) => PickleValue::Tuple(xs.iter().map(from_serde_value).collect()),
        Value::Set(xs) => PickleValue::SetOf(xs.iter().map(from_serde_key).collect()),
        Value::FrozenSet(xs) => PickleValue::FrozenSet(xs.iter().map(from_serde_key).collect()),
        Value::Dict(m) => PickleValue::Dict(m.iter().map(|(k, x)| (from_serde_key(k), from_serde_value(x))).collect()),
        _ => from_serde_value(v),
    }
}

/// Converts a dictionary key or set member through
/// `HashableValue::into_value`. Used only inside the two trusted decoders
/// above.
#[verifier::external_body]
fn from_serde_key(k: &HashableValue) -> PickleValue {
    from_serde_value(&k.clone().into_value())
}

} // verus!

//! The label table and the heap.
//!
//! Both are `hashbrown::HashMap`s keyed by `num_bigint::BigInt`, held in
//! opaque structs; what each map holds is named by an uninterpreted spec
//! function as a ghost `Map<int, int>` from the mathematical key to the
//! stored value, and every method the interpreter calls is a trusted
//! wrapper whose contract is stated over that name.  Soundness of the
//! contracts rests on `BigInt`'s `Eq` and `Hash` agreeing with mathematical
//! equality of the values, which holds because `BigInt` keeps a normalized
//! sign-and-magnitude representation and both are derived from it.

use vstd::prelude::*;
use crate::num::Number;
use hashbrown::HashMap;
use num_bigint::BigInt;
use num_bigint::Sign;

verus! {

/// The empty contents of a fresh table or heap.
pub open spec fn no_entries() -> Map<int, int> {
    Map::empty()
}

/// The decoder's label table: label value -> instruction index.
#[verifier::external_body]
pub struct LabelTable {
    map: HashMap<BigInt, usize>,
}

/// What the label table holds.
pub uninterp spec fn label_map(t: LabelTable) -> Map<int, int>;

/// Relies on `hashbrown::HashMap::new`: the new map is empty.
#[verifier::external_body]
pub fn label_table_new() -> (t: LabelTable)
    ensures
        label_map(t) == no_entries(),
{
    LabelTable { map: HashMap::new() }
}

/// Relies on `hashbrown::HashMap::insert` with a `BigInt` key: it replaces
/// exactly the entry whose key equals the value of `k`.
#[verifier::external_body]
pub fn label_insert(t: &mut LabelTable, k: &Number, idx: usize)
    ensures
        label_map(*final(t)) == label_map(*old(t)).insert(k@, idx as int),
{
    let key = BigInt::from_slice(if k.neg { Sign::Minus } else { Sign::Plus }, &k.limbs);
    t.map.insert(key, idx);
}

/// Relies on `hashbrown::HashMap::get` with a `BigInt` key: it finds the
/// entry whose key equals the value of `k`, if there is one.
#[verifier::external_body]
pub fn label_get(t: &LabelTable, k: &Number) -> (r: Option<usize>)
    ensures
        match r {
            Some(i) => label_map(*t).contains_key(k@) && label_map(*t)[k@] == i as int,
            None => !label_map(*t).contains_key(k@),
        },
{
    let key = BigInt::from_slice(if k.neg { Sign::Minus } else { Sign::Plus }, &k.limbs);
    t.map.get(&key).copied()
}

/// The virtual machine's heap: key -> value.
#[verifier::external_body]
pub struct Heap {
    map: HashMap<BigInt, BigInt>,
}

/// What the heap holds.
pub uninterp spec fn heap_map(h: Heap) -> Map<int, int>;

/// Relies on `hashbrown::HashMap::new`: the new map is empty.
#[verifier::external_body]
pub fn heap_new() -> (h: Heap)
    ensures
        heap_map(h) == no_entries(),
{
    Heap { map: HashMap::new() }
}

/// Relies on `hashbrown::HashMap::insert` with a `BigInt` key: it replaces
/// exactly the entry whose key equals the value of `k`.
#[verifier::external_body]
pub fn heap_insert(h: &mut Heap, k: &Number, v: &Number)
    ensures
        heap_map(*final(h)) == heap_map(*old(h)).insert(k@, v@),
{
    let key = BigInt::from_slice(if k.neg { Sign::Minus } else { Sign::Plus }, &k.limbs);
    let val = BigInt::from_slice(if v.neg { Sign::Minus } else { Sign::Plus }, &v.limbs);
    h.map.insert(key, val);
}

/// Relies on `hashbrown::HashMap::get` with a `BigInt` key, and on
/// `BigInt::to_u32_digits` handing back the canonical sign and digits.
#[verifier::external_body]
pub fn heap_get(h: &Heap, k: &Number) -> (r: Option<Number>)
    ensures
        match r {
            Some(n) => heap_map(*h).contains_key(k@) && n@ == heap_map(*h)[k@] && n.wf(),
            None => !heap_map(*h).contains_key(k@),
        },
{
    let key = BigInt::from_slice(if k.neg { Sign::Minus } else { Sign::Plus }, &k.limbs);
    match h.map.get(&key) {
        Some(v) => {
            let (s, digits) = v.to_u32_digits();
            Some(Number { neg: s == Sign::Minus, limbs: digits })
        }
        None => None,
    }
}

/// Relies on `hashbrown::HashMap::iter`: it visits every entry exactly
/// once, in no promised order.
#[verifier::external_body]
pub fn heap_entries(h: &Heap) -> (r: Vec<(Number, Number)>)
    ensures
        forall|i: int| 0 <= i < r@.len() ==> {
            &&& (#[trigger] r@[i].0).wf()
            &&& r@[i].1.wf()
            &&& heap_map(*h).contains_key(r@[i].0@)
            &&& heap_map(*h)[r@[i].0@] == r@[i].1@
        },
        forall|i: int, j: int| 0 <= i < j < r@.len() ==> r@[i].0@ != r@[j].0@,
        forall|k: int| heap_map(*h).contains_key(k)
            ==> exists|i: int| 0 <= i < r@.len() && (#[trigger] r@[i].0)@ == k,
{
    let mut out = Vec::new();
    for (k, v) in h.map.iter() {
        let (ks, kd) = k.to_u32_digits();
        let (vs, vd) = v.to_u32_digits();
        out.push((
            Number { neg: ks == Sign::Minus, limbs: kd },
            Number { neg: vs == Sign::Minus, limbs: vd },
        ));
    }
    out
}

} // verus!

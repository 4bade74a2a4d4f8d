//! SQL array operations.
//!
//! Each operation has a core form on plain vectors and lifted forms for
//! nullable arguments: an absent argument gives an absent result.
#![allow(non_snake_case)]

use std::hash::Hash;
use core::cmp::Ordering;
use vstd::laws_cmp::obeys_cmp;
use vstd::laws_eq::obeys_concrete_eq;
use vstd::multiset::Multiset;
use vstd::prelude::*;
use vstd::std_specs::cmp::{OrdSpec, PartialEqSpec, PartialOrdSpec};

verus! {

/// A sequence in reverse order.
pub open spec fn reversed<T>(s: Seq<T>) -> Seq<T> {
    Seq::new(s.len(), |i: int| s[s.len() - 1 - i])
}

/// The definite entries of a sequence of optional values, in order.
pub open spec fn present<T>(s: Seq<Option<T>>) -> Seq<T>
    decreases s.len(),
{
    if s.len() == 0 {
        Seq::empty()
    } else {
        let rest = present(s.drop_last());
        match s.last() {
            Some(x) => rest.push(x),
            None => rest,
        }
    }
}

/// The sequence without any entry equal to `e`.
pub open spec fn without<T>(s: Seq<T>, e: T) -> Seq<T> {
    s.filter(|x: T| x != e)
}

/// The sequence with every repeated entry dropped, keeping first occurrences.
pub open spec fn distinct_of<T>(s: Seq<T>) -> Seq<T> {
    s.remove_duplicates(Seq::empty())
}

/// Whether some definite value occurs in both sequences.
pub open spec fn shares_value<T>(a: Seq<Option<T>>, b: Seq<Option<T>>) -> bool {
    exists|i: int, j: int|
        0 <= i < a.len() && 0 <= j < b.len() && a[i] is Some && #[trigger] a[i] == #[trigger] b[j]
}

/// Three-valued overlap of two sequences of optional values: true when a
/// definite value is shared; unknown when both are non-empty, nothing is
/// shared and an absent entry occurs; false otherwise.
pub open spec fn overlap_of<T>(a: Seq<Option<T>>, b: Seq<Option<T>>) -> Option<bool> {
    if a.len() > 0 && b.len() > 0 && shares_value(a, b) {
        Some(true)
    } else if a.len() > 0 && b.len() > 0 && (a.contains(None) || b.contains(None)) {
        None
    } else {
        Some(false)
    }
}

/// Whether the two sequences have a common entry.
pub open spec fn intersects<T>(a: Seq<T>, b: Seq<T>) -> bool {
    exists|i: int, j: int| 0 <= i < a.len() && 0 <= j < b.len() && #[trigger] a[i] == #[trigger] b[j]
}

/// The entry at a zero-based signed offset, if there is one.
pub open spec fn entry_at<T>(s: Seq<T>, index: int) -> Option<T> {
    if 0 <= index < s.len() {
        Some(s[index])
    } else {
        None
    }
}

/// Applies `f` to every element of `vec`.
pub fn array_map__<T, S, F>(vec: &[T], f: F) -> (r: Vec<S>)
    where
        F: Fn(&T) -> S,
    requires
        forall|i: int| 0 <= i < vec@.len() ==> f.requires((&vec@[i],)),
    ensures
        r@.len() == vec@.len(),
        forall|i: int| 0 <= i < vec@.len() ==> f.ensures((&vec@[i],), #[trigger] r@[i]),
{
    let mut out: Vec<S> = Vec::new();
    let mut i: usize = 0;
    while i < vec.len()
        invariant
            i <= vec@.len(),
            out@.len() == i,
            forall|k: int| 0 <= k < vec@.len() ==> f.requires((&vec@[k],)),
            forall|k: int| 0 <= k < i ==> f.ensures((&vec@[k],), #[trigger] out@[k]),
        decreases vec@.len() - i,
    {
        let y = f(&vec[i]);
        out.push(y);
        i = i + 1;
    }
    out
}

/// `array_map__` on an optional vector.
pub fn array_mapN_<T, S, F>(vec: &Option<Vec<T>>, f: F) -> (r: Option<Vec<S>>)
    where
        F: Fn(&T) -> S,
    requires
        vec is Some ==> forall|i: int|
            0 <= i < vec->0@.len() ==> f.requires((&vec->0@[i],)),
    ensures
        vec is None <==> r is None,
        vec is Some ==> r->0@.len() == vec->0@.len() && forall|i: int|
            0 <= i < vec->0@.len() ==> f.ensures((&vec->0@[i],), #[trigger] r->0@[i]),
{
    match vec {
        None => None,
        Some(v) => Some(array_map__(v.as_slice(), f)),
    }
}

/// The sole element of an array of at most one element; absent when empty.
pub fn element__<T>(array: Vec<T>) -> (r: Option<T>)
    where
        T: Clone,
    requires
        array@.len() <= 1,
    ensures
        r == entry_at(array@, 0),
{
    let mut array = array;
    array.pop()
}

/// `element__` on an optional array.
pub fn elementN_<T>(array: Option<Vec<T>>) -> (r: Option<T>)
    where
        T: Clone,
    requires
        array is Some ==> array->0@.len() <= 1,
    ensures
        r == match array {
            None => None,
            Some(a) => entry_at(a@, 0),
        },
{
    match array {
        None => None,
        Some(a) => element__(a),
    }
}

/// The sole element of an array of optional values of at most one element.
pub fn element_N<T>(array: Vec<Option<T>>) -> (r: Option<T>)
    where
        T: Clone,
    requires
        array@.len() <= 1,
    ensures
        r == (if array@.len() == 0 {
            None
        } else {
            array@[0]
        }),
{
    let mut array = array;
    match array.pop() {
        None => None,
        Some(x) => x,
    }
}

/// `element_N` on an optional array.
pub fn elementNN<T>(array: Option<Vec<Option<T>>>) -> (r: Option<T>)
    where
        T: Clone,
    requires
        array is Some ==> array->0@.len() <= 1,
    ensures
        r == match array {
            None => None,
            Some(a) => if a@.len() == 0 {
                None
            } else {
                a@[0]
            },
        },
{
    match array {
        None => None,
        Some(a) => element_N(a),
    }
}

/// Number of elements, as a 32-bit count.
pub fn cardinalityVec<T>(value: Vec<T>) -> (r: i32)
    requires
        value@.len() <= i32::MAX,
    ensures
        r == value@.len(),
{
    value.len() as i32
}

/// `cardinalityVec` on an optional array.
pub fn cardinalityVecN<T>(value: Option<Vec<T>>) -> (r: Option<i32>)
    requires
        value is Some ==> value->0@.len() <= i32::MAX,
    ensures
        r == match value {
            None => None,
            Some(v) => Some(v@.len() as i32),
        },
{
    match value {
        None => None,
        Some(v) => Some(cardinalityVec(v)),
    }
}

/// The element at zero-based offset `index`; absent when the offset is
/// negative or past the end.
pub fn index___<T>(value: Vec<T>, index: isize) -> (r: Option<T>)
    where
        T: Clone,
    ensures
        r == entry_at(value@, index as int),
{
    if index < 0 {
        return None;
    }
    let index: usize = index as usize;
    if index >= value.len() {
        None
    } else {
        let mut value = value;
        Some(value.swap_remove(index))
    }
}

/// `index___` with an optional offset.
pub fn index__N<T>(value: Vec<T>, index: Option<isize>) -> (r: Option<T>)
    where
        T: Clone,
    ensures
        r == match index {
            None => None,
            Some(i) => entry_at(value@, i as int),
        },
{
    match index {
        None => None,
        Some(i) => index___(value, i),
    }
}

/// The entry at zero-based offset `index` of an array of optional values.
pub fn index_N_<T>(value: Vec<Option<T>>, index: isize) -> (r: Option<T>)
    where
        T: Clone,
    ensures
        r == match entry_at(value@, index as int) {
            None => None,
            Some(x) => x,
        },
{
    match index___(value, index) {
        None => None,
        Some(x) => x,
    }
}

/// `index_N_` with an optional offset.
pub fn index_NN<T>(value: Vec<Option<T>>, index: Option<isize>) -> (r: Option<T>)
    where
        T: Clone,
    ensures
        r == match index {
            None => None,
            Some(i) => match entry_at(value@, i as int) {
                None => None,
                Some(x) => x,
            },
        },
{
    match index {
        None => None,
        Some(i) => index_N_(value, i),
    }
}

/// `index___` on an optional array.
pub fn indexN__<T>(value: Option<Vec<T>>, index: isize) -> (r: Option<T>)
    where
        T: Clone,
    ensures
        r == match value {
            None => None,
            Some(v) => entry_at(v@, index as int),
        },
{
    match value {
        None => None,
        Some(value) => index___(value, index),
    }
}

/// `index___` on an optional array with an optional offset.
pub fn indexN_N<T>(value: Option<Vec<T>>, index: Option<isize>) -> (r: Option<T>)
    where
        T: Clone,
    ensures
        r == match (value, index) {
            (Some(v), Some(i)) => entry_at(v@, i as int),
            _ => None,
        },
{
    match index {
        None => None,
        Some(i) => indexN__(value, i),
    }
}

/// `index_N_` on an optional array.
pub fn indexNN_<T>(value: Option<Vec<Option<T>>>, index: isize) -> (r: Option<T>)
    where
        T: Clone,
    ensures
        r == match value {
            None => None,
            Some(v) => match entry_at(v@, index as int) {
                None => None,
                Some(x) => x,
            },
        },
{
    match value {
        None => None,
        Some(value) => index_N_(value, index),
    }
}

/// `index_N_` on an optional array with an optional offset.
pub fn indexNNN<T>(value: Option<Vec<Option<T>>>, index: Option<isize>) -> (r: Option<T>)
    where
        T: Clone,
    ensures
        r == match (value, index) {
            (Some(v), Some(i)) => match entry_at(v@, i as int) {
                None => None,
                Some(x) => x,
            },
            _ => None,
        },
{
    match index {
        None => None,
        Some(i) => indexNN_(value, i),
    }
}

/// The empty array.
pub fn array<T>() -> (r: Vec<T>)
    ensures
        r@.len() == 0,
{
    Vec::new()
}

/// Copies of the first `limit` elements.
pub fn limit<T>(vector: &[T], count: usize) -> (r: Vec<T>)
    where
        T: Clone,
    requires
        count <= vector@.len(),
    ensures
        r@.len() == count,
        forall|i: int| 0 <= i < count ==> cloned(vector@[i], #[trigger] r@[i]),
{
    let mut out: Vec<T> = Vec::new();
    let mut i: usize = 0;
    while i < count
        invariant
            i <= count <= vector@.len(),
            out@.len() == i,
            forall|k: int| 0 <= k < i ==> cloned(vector@[k], #[trigger] out@[k]),
        decreases count - i,
    {
        out.push(vector[i].clone());
        i = i + 1;
    }
    out
}

/// Applies `func` to every element of `vector`.
pub fn map<T, S, F>(vector: &[T], func: F) -> (r: Vec<S>)
    where
        F: Fn(&T) -> S,
    requires
        forall|i: int| 0 <= i < vector@.len() ==> func.requires((&vector@[i],)),
    ensures
        r@.len() == vector@.len(),
        forall|i: int| 0 <= i < vector@.len() ==> func.ensures((&vector@[i],), #[trigger] r@[i]),
{
    array_map__(vector, func)
}

/// The vector with `value` added at the end.
pub fn array_append<T>(vector: Vec<T>, value: T) -> (r: Vec<T>)
    ensures
        r@ == vector@.push(value),
{
    let mut vector = vector;
    vector.push(value);
    vector
}

/// `array_append` on an optional vector.
pub fn array_appendN<T>(vector: Option<Vec<T>>, value: T) -> (r: Option<Vec<T>>)
    ensures
        vector is None <==> r is None,
        vector is Some ==> r->0@ == vector->0@.push(value),
{
    match vector {
        None => None,
        Some(v) => Some(array_append(v, value)),
    }
}

/// `count` copies of `element`; none when `count` is not positive.
pub fn array_repeat__<T>(element: T, count: i32) -> (r: Vec<T>)
    where
        T: Clone,
    ensures
        r@.len() == (if count < 0 {
            0
        } else {
            count as int
        }),
        forall|i: int| 0 <= i < r@.len() ==> cloned(element, #[trigger] r@[i]),
{
    let n: usize = if count < 0 {
        0
    } else {
        count as usize
    };
    let mut out: Vec<T> = Vec::new();
    let mut i: usize = 0;
    while i < n
        invariant
            i <= n,
            out@.len() == i,
            forall|k: int| 0 <= k < i ==> cloned(element, #[trigger] out@[k]),
        decreases n - i,
    {
        out.push(element.clone());
        i = i + 1;
    }
    out
}

/// `array_repeat__` of an optional element.
pub fn array_repeatN_<T>(element: Option<T>, count: i32) -> (r: Option<Vec<Option<T>>>)
    where
        T: Clone,
    ensures
        r is Some,
        r->0@.len() == (if count < 0 {
            0
        } else {
            count as int
        }),
        forall|i: int| 0 <= i < r->0@.len() ==> cloned(element, #[trigger] r->0@[i]),
{
    Some(array_repeat__(element, count))
}

/// `array_repeat__` with an optional count.
pub fn array_repeat_N<T>(element: T, count: Option<i32>) -> (r: Option<Vec<T>>)
    where
        T: Clone,
    ensures
        count is None <==> r is None,
        count is Some ==> r->0@.len() == (if count->0 < 0 {
            0
        } else {
            count->0 as int
        }),
        count is Some ==> forall|i: int|
            0 <= i < r->0@.len() ==> cloned(element, #[trigger] r->0@[i]),
{
    match count {
        None => None,
        Some(c) => Some(array_repeat__(element, c)),
    }
}

/// `array_repeat__` of an optional element with an optional count.
pub fn array_repeatNN<T>(element: Option<T>, count: Option<i32>) -> (r: Option<Vec<Option<T>>>)
    where
        T: Clone,
    ensures
        count is None <==> r is None,
        count is Some ==> r->0@.len() == (if count->0 < 0 {
            0
        } else {
            count->0 as int
        }),
        count is Some ==> forall|i: int|
            0 <= i < r->0@.len() ==> cloned(element, #[trigger] r->0@[i]),
{
    match count {
        None => None,
        Some(c) => Some(array_repeat__(element, c)),
    }
}

/// The vector in reverse order.
pub fn array_reverse_<T>(vector: Vec<T>) -> (r: Vec<T>)
    ensures
        r@ == reversed(vector@),
{
    let ghost v0 = vector@;
    let mut src = vector;
    let mut out: Vec<T> = Vec::new();
    while src.len() > 0
        invariant
            src@.len() + out@.len() == v0.len(),
            src@ == v0.subrange(0, src@.len() as int),
            forall|k: int| 0 <= k < out@.len() ==> #[trigger] out@[k] == v0[v0.len() - 1 - k],
        decreases src@.len(),
    {
        let x = src.pop().unwrap();
        out.push(x);
    }
    assert(out@ =~= reversed(v0));
    out
}

/// `array_reverse_` on an optional vector.
pub fn array_reverseN<T>(vector: Option<Vec<T>>) -> (r: Option<Vec<T>>)
    ensures
        vector is None <==> r is None,
        vector is Some ==> r->0@ == reversed(vector->0@),
{
    match vector {
        None => None,
        Some(v) => Some(array_reverse_(v)),
    }
}

/// The definite entries of `vector`, in order.
pub fn array_compact_<T>(vector: Vec<Option<T>>) -> (r: Vec<T>)
    ensures
        r@ == present(vector@),
{
    let ghost v0 = vector@;
    let n = vector.len();
    let mut rest = array_reverse_(vector);
    let mut out: Vec<T> = Vec::new();
    let mut i: usize = 0;
    while rest.len() > 0
        invariant
            n == v0.len(),
            i + rest@.len() == v0.len(),
            forall|k: int| 0 <= k < rest@.len() ==> #[trigger] rest@[k] == v0[v0.len() - 1 - k],
            out@ == present(v0.subrange(0, i as int)),
        decreases rest@.len(),
    {
        let x = rest.pop().unwrap();
        assert(x == v0[i as int]);
        assert(v0.subrange(0, i + 1).drop_last() =~= v0.subrange(0, i as int));
        match x {
            Some(y) => out.push(y),
            None => {},
        }
        i = i + 1;
    }
    assert(v0.subrange(0, v0.len() as int) =~= v0);
    out
}

/// `array_compact_` on an optional vector.
pub fn array_compact_N<T>(vector: Option<Vec<Option<T>>>) -> (r: Option<Vec<T>>)
    ensures
        vector is None <==> r is None,
        vector is Some ==> r->0@ == present(vector->0@),
{
    match vector {
        None => None,
        Some(v) => Some(array_compact_(v)),
    }
}

/// The vector with `value` added at the start.
pub fn array_prepend<T>(vector: Vec<T>, value: T) -> (r: Vec<T>)
    ensures
        r@ == seq![value] + vector@,
{
    let ghost v0 = vector@;
    let mut vector = vector;
    vector.insert(0, value);
    assert(vector@ =~= seq![value] + v0);
    vector
}

/// `array_prepend` on an optional vector.
pub fn array_prependN<T>(vector: Option<Vec<T>>, value: T) -> (r: Option<Vec<T>>)
    ensures
        vector is None <==> r is None,
        vector is Some ==> r->0@ == seq![value] + vector->0@,
{
    match vector {
        None => None,
        Some(v) => Some(array_prepend(v, value)),
    }
}

/// Integers from `start` to `end`, both included; empty when `start > end`.
pub fn sequence__(start: i32, end: i32) -> (r: Vec<i32>)
    ensures
        r@.len() == (if start > end {
            0
        } else {
            end - start + 1
        }),
        forall|i: int| 0 <= i < r@.len() ==> #[trigger] r@[i] == start + i,
{
    let mut out: Vec<i32> = Vec::new();
    if start > end {
        return out;
    }
    let mut x: i32 = start;
    while x < end
        invariant
            start <= x <= end,
            out@.len() == x - start,
            forall|i: int| 0 <= i < out@.len() ==> #[trigger] out@[i] == start + i,
        decreases end - x,
    {
        out.push(x);
        x = x + 1;
    }
    out.push(x);
    out
}

/// The vector without the elements equal to `element`.
pub fn array_remove__<T>(vector: Vec<T>, element: T) -> (r: Vec<T>)
    where
        T: Eq,
    requires
        obeys_concrete_eq::<T>(),
    ensures
        r@ == without(vector@, element),
{
    proof {
        reveal(obeys_concrete_eq);
    }
    let ghost v0 = vector@;
    let n = vector.len();
    let mut rest = array_reverse_(vector);
    let mut out: Vec<T> = Vec::new();
    let mut i: usize = 0;
    while rest.len() > 0
        invariant
            obeys_concrete_eq::<T>(),
            T::obeys_eq_spec(),
            forall|x: T, y: T| (x.eq_spec(&y)) <==> (x == y),
            n == v0.len(),
            i + rest@.len() == v0.len(),
            forall|k: int| 0 <= k < rest@.len() ==> #[trigger] rest@[k] == v0[v0.len() - 1 - k],
            out@ == without(v0.subrange(0, i as int), element),
        decreases rest@.len(),
    {
        let x = rest.pop().unwrap();
        assert(x == v0[i as int]);
        assert(v0.subrange(0, i + 1).drop_last() =~= v0.subrange(0, i as int));
        proof {
            reveal(Seq::filter);
        }
        if !x.eq(&element) {
            out.push(x);
        }
        i = i + 1;
    }
    assert(v0.subrange(0, v0.len() as int) =~= v0);
    out
}

/// One-based position of the first element equal to `element`; 0 if none is.
pub fn array_position__<T>(vector: Vec<T>, element: T) -> (r: i64)
    where
        T: Eq,
    requires
        obeys_concrete_eq::<T>(),
        vector@.len() <= i64::MAX,
    ensures
        0 <= r <= vector@.len(),
        r == 0 <==> !vector@.contains(element),
        r > 0 ==> vector@[r - 1] == element,
        forall|j: int| 0 <= j < r - 1 ==> vector@[j] != element,
{
    proof {
        reveal(obeys_concrete_eq);
    }
    let mut i: usize = 0;
    while i < vector.len()
        invariant
            obeys_concrete_eq::<T>(),
            T::obeys_eq_spec(),
            forall|x: T, y: T| (x.eq_spec(&y)) <==> (x == y),
            i <= vector@.len() <= i64::MAX,
            forall|j: int| 0 <= j < i ==> vector@[j] != element,
        decreases vector@.len() - i,
    {
        if vector[i].eq(&element) {
            return (i + 1) as i64;
        }
        i = i + 1;
    }
    0
}

/// Whether some element equals `element`.
pub fn array_contains__<T>(vector: Vec<T>, element: T) -> (r: bool)
    where
        T: Eq,
    requires
        obeys_concrete_eq::<T>(),
    ensures
        r == vector@.contains(element),
{
    proof {
        reveal(obeys_concrete_eq);
    }
    let mut i: usize = 0;
    while i < vector.len()
        invariant
            obeys_concrete_eq::<T>(),
            T::obeys_eq_spec(),
            forall|x: T, y: T| (x.eq_spec(&y)) <==> (x == y),
            i <= vector@.len(),
            forall|j: int| 0 <= j < i ==> vector@[j] != element,
        decreases vector@.len() - i,
    {
        if vector[i].eq(&element) {
            return true;
        }
        i = i + 1;
    }
    false
}

/// Whether `x` equals some element of `v`.
fn occurs_in<T: Eq>(v: &Vec<T>, x: &T) -> (r: bool)
    requires
        obeys_concrete_eq::<T>(),
    ensures
        r == v@.contains(*x),
{
    proof {
        reveal(obeys_concrete_eq);
    }
    let mut i: usize = 0;
    while i < v.len()
        invariant
            obeys_concrete_eq::<T>(),
            T::obeys_eq_spec(),
            forall|a: T, b: T| (a.eq_spec(&b)) <==> (a == b),
            i <= v@.len(),
            forall|j: int| 0 <= j < i ==> v@[j] != *x,
        decreases v@.len() - i,
    {
        if v[i].eq(x) {
            return true;
        }
        i = i + 1;
    }
    false
}

/// The vector with repeated elements dropped, first occurrences kept in order.
pub fn array_distinct<T>(vector: Vec<T>) -> (r: Vec<T>)
    where
        T: Eq + Hash + Clone,
    requires
        obeys_concrete_eq::<T>(),
    ensures
        r@ == distinct_of(vector@),
{
    let ghost v0 = vector@;
    let n = vector.len();
    let mut rest = array_reverse_(vector);
    let mut out: Vec<T> = Vec::new();
    let mut i: usize = 0;
    while rest.len() > 0
        invariant
            obeys_concrete_eq::<T>(),
            n == v0.len(),
            i + rest@.len() == v0.len(),
            forall|k: int| 0 <= k < rest@.len() ==> #[trigger] rest@[k] == v0[v0.len() - 1 - k],
            out@ == distinct_of(v0.subrange(0, i as int)),
        decreases rest@.len(),
    {
        let x = rest.pop().unwrap();
        let ghost pre = v0.subrange(0, i as int);
        proof {
            assert(x == v0[i as int]);
            assert(v0.subrange(0, i + 1) =~= pre + seq![x]);
            pre.lemma_remove_duplicates_properties(Seq::empty());
            pre.lemma_remove_duplicates_append(x, Seq::empty());
            assert(pre + Seq::<T>::empty() =~= pre);
        }
        if !occurs_in(&out, &x) {
            out.push(x);
        }
        i = i + 1;
    }
    assert(v0.subrange(0, v0.len() as int) =~= v0);
    out
}

/// `array_distinct` on an optional vector.
pub fn array_distinctN<T>(vector: Option<Vec<T>>) -> (r: Option<Vec<T>>)
    where
        T: Eq + Hash + Clone,
    requires
        obeys_concrete_eq::<T>(),
    ensures
        vector is None <==> r is None,
        vector is Some ==> r->0@ == distinct_of(vector->0@),
{
    match vector {
        None => None,
        Some(v) => Some(array_distinct(v)),
    }
}

/// Whether a definite entry of `a` occurs in `b`, where `b` holds no entry
/// absent.
fn find_shared<T: Eq>(a: &Vec<Option<T>>, b: &Vec<Option<T>>) -> (r: bool)
    requires
        obeys_concrete_eq::<T>(),
    ensures
        r == shares_value(a@, b@),
{
    proof {
        broadcast use vstd::laws_eq::lemma_option_obeys_concrete_eq;
    }
    let mut i: usize = 0;
    while i < a.len()
        invariant
            obeys_concrete_eq::<Option<T>>(),
            i <= a@.len(),
            forall|k: int| 0 <= k < i ==> (#[trigger] a@[k] is None || !b@.contains(a@[k])),
        decreases a@.len() - i,
    {
        if a[i].is_some() && occurs_in(b, &a[i]) {
            proof {
                let j = choose|j: int| 0 <= j < b@.len() && b@[j] == a@[i as int];
                assert(a@[i as int] == b@[j]);
            }
            return true;
        }
        i = i + 1;
    }
    proof {
        if shares_value(a@, b@) {
            let (x, y) = choose|x: int, y: int|
                0 <= x < a@.len() && 0 <= y < b@.len() && a@[x] is Some && #[trigger] a@[x]
                    == #[trigger] b@[y];
            assert(b@.contains(a@[x]));
        }
    }
    false
}

/// Whether some entry of `v` is absent.
fn has_absent<T>(v: &Vec<Option<T>>) -> (r: bool)
    ensures
        r == v@.contains(None),
{
    let mut i: usize = 0;
    while i < v.len()
        invariant
            i <= v@.len(),
            forall|k: int| 0 <= k < i ==> #[trigger] v@[k] is Some,
        decreases v@.len() - i,
    {
        if v[i].is_none() {
            assert(v@[i as int] == None::<T>);
            return true;
        }
        i = i + 1;
    }
    false
}

/// Three-valued overlap of two vectors of optional values.
pub fn arrays_overlapNvec_Nvec_<T>(first: Vec<Option<T>>, second: Vec<Option<T>>) -> (r: Option<bool>)
    where
        T: Eq + Hash,
    requires
        obeys_concrete_eq::<T>(),
    ensures
        r == overlap_of(first@, second@),
{
    if first.len() == 0 || second.len() == 0 {
        return Some(false);
    }
    if find_shared(&first, &second) {
        Some(true)
    } else if has_absent(&first) || has_absent(&second) {
        None
    } else {
        Some(false)
    }
}

/// `arrays_overlapNvec_Nvec_` with an optional second vector.
pub fn arrays_overlapNvec_NvecN<T>(first: Vec<Option<T>>, second: Option<Vec<Option<T>>>) -> (r:
    Option<bool>)
    where
        T: Eq + Hash,
    requires
        obeys_concrete_eq::<T>(),
    ensures
        r == match second {
            None => None,
            Some(b) => overlap_of(first@, b@),
        },
{
    match second {
        None => None,
        Some(b) => arrays_overlapNvec_Nvec_(first, b),
    }
}

/// `arrays_overlapNvec_Nvec_` with both vectors optional.
pub fn arrays_overlapNvecNNvecN<T>(
    first: Option<Vec<Option<T>>>,
    second: Option<Vec<Option<T>>>,
) -> (r: Option<bool>)
    where
        T: Eq + Hash,
    requires
        obeys_concrete_eq::<T>(),
    ensures
        r == match (first, second) {
            (Some(a), Some(b)) => overlap_of(a@, b@),
            _ => None,
        },
{
    match (first, second) {
        (Some(a), Some(b)) => arrays_overlapNvec_Nvec_(a, b),
        _ => None,
    }
}

/// `arrays_overlapNvec_Nvec_` with an optional first vector.
pub fn arrays_overlapNvecNNvec_<T>(first: Option<Vec<Option<T>>>, second: Vec<Option<T>>) -> (r:
    Option<bool>)
    where
        T: Eq + Hash,
    requires
        obeys_concrete_eq::<T>(),
    ensures
        r == match first {
            None => None,
            Some(a) => overlap_of(a@, second@),
        },
{
    match first {
        None => None,
        Some(a) => arrays_overlapNvec_Nvec_(a, second),
    }
}

/// Whether the two vectors have an element in common.
pub fn arrays_overlap_vec__vec_<T>(first: Vec<T>, second: Vec<T>) -> (r: bool)
    where
        T: Eq + Hash,
    requires
        obeys_concrete_eq::<T>(),
    ensures
        r == intersects(first@, second@),
{
    let mut i: usize = 0;
    while i < first.len()
        invariant
            obeys_concrete_eq::<T>(),
            i <= first@.len(),
            forall|k: int| 0 <= k < i ==> !second@.contains(#[trigger] first@[k]),
        decreases first@.len() - i,
    {
        if occurs_in(&second, &first[i]) {
            proof {
                let j = choose|j: int| 0 <= j < second@.len() && second@[j] == first@[i as int];
                assert(first@[i as int] == second@[j]);
            }
            return true;
        }
        i = i + 1;
    }
    proof {
        if intersects(first@, second@) {
            let (x, y) = choose|x: int, y: int|
                0 <= x < first@.len() && 0 <= y < second@.len() && #[trigger] first@[x]
                    == #[trigger] second@[y];
            assert(second@.contains(first@[x]));
        }
    }
    false
}

/// `arrays_overlap_vec__vec_` with both vectors optional.
pub fn arrays_overlap_vecN_vecN<T>(first: Option<Vec<T>>, second: Option<Vec<T>>) -> (r: Option<
    bool,
>)
    where
        T: Eq + Hash,
    requires
        obeys_concrete_eq::<T>(),
    ensures
        r == match (first, second) {
            (Some(a), Some(b)) => Some(intersects(a@, b@)),
            _ => None,
        },
{
    match (first, second) {
        (Some(a), Some(b)) => Some(arrays_overlap_vec__vec_(a, b)),
        _ => None,
    }
}

/// `arrays_overlap_vec__vec_` with an optional second vector.
pub fn arrays_overlap_vec__vecN<T>(first: Vec<T>, second: Option<Vec<T>>) -> (r: Option<bool>)
    where
        T: Eq + Hash,
    requires
        obeys_concrete_eq::<T>(),
    ensures
        r == match second {
            None => None,
            Some(b) => Some(intersects(first@, b@)),
        },
{
    match second {
        None => None,
        Some(b) => Some(arrays_overlap_vec__vec_(first, b)),
    }
}

/// `arrays_overlap_vec__vec_` with an optional first vector.
pub fn arrays_overlap_vecN_vec_<T>(first: Option<Vec<T>>, second: Vec<T>) -> (r: Option<bool>)
    where
        T: Eq + Hash,
    requires
        obeys_concrete_eq::<T>(),
    ensures
        r == match first {
            None => None,
            Some(a) => Some(intersects(a@, second@)),
        },
{
    match first {
        None => None,
        Some(a) => Some(arrays_overlap_vec__vec_(a, second)),
    }
}

/// How many copies of the value one aggregation step adds.
pub open spec fn agg_copies(weight: int, distinct: bool, keep: bool) -> int {
    if !keep {
        0
    } else if distinct {
        1
    } else {
        weight
    }
}

/// What one aggregation step leaves in the accumulator: the old contents,
/// then `agg_copies` clones of the value.
pub open spec fn agg_step<T: Clone>(old: Seq<T>, new: Seq<T>, value: T, copies: int) -> bool {
    &&& new.len() == old.len() + copies
    &&& new.subrange(0, old.len() as int) == old
    &&& forall|i: int| old.len() <= i < new.len() ==> cloned(value, #[trigger] new[i])
}

/// Whether `r` is an element-wise clone of `s`.
pub open spec fn clone_of<T: Clone>(s: Seq<T>, r: Seq<T>) -> bool {
    &&& r.len() == s.len()
    &&& forall|i: int| 0 <= i < s.len() ==> cloned(s[i], #[trigger] r[i])
}

/// One step of an array aggregation: adds `value` once when `distinct`,
/// `weight` times otherwise, nothing unless `keep`; returns a copy of the
/// accumulator.
pub fn array_agg<T>(accumulator: &mut Vec<T>, value: T, weight: i64, distinct: bool, keep: bool) -> (r: Vec<T>)
    where
        T: Clone,
    requires
        weight >= 0,
    ensures
        agg_step(old(accumulator)@, final(accumulator)@, value, agg_copies(weight as int, distinct, keep)),
        clone_of(final(accumulator)@, r@),
{
    let ghost a0 = accumulator@;
    if distinct && keep {
        accumulator.push(value.clone());
    } else if keep {
        let mut i: i64 = 0;
        while i < weight
            invariant
                0 <= i <= weight,
                accumulator@.len() == a0.len() + i,
                accumulator@.subrange(0, a0.len() as int) == a0,
                forall|k: int| a0.len() <= k < accumulator@.len() ==> cloned(value, #[trigger] accumulator@[k]),
            decreases weight - i,
        {
            accumulator.push(value.clone());
            assert(accumulator@.subrange(0, a0.len() as int) =~= a0);
            i = i + 1;
        }
    }
    assert(accumulator@.subrange(0, a0.len() as int) =~= a0);
    accumulator.clone()
}

/// `array_agg` on an optional accumulator; an absent accumulator stays absent.
pub fn array_aggN<T>(accumulator: &mut Option<Vec<T>>, value: T, weight: i64, distinct: bool, keep: bool) -> (r: Option<Vec<T>>)
    where
        T: Clone,
    requires
        weight >= 0,
    ensures
        *old(accumulator) is None ==> *final(accumulator) is None && r is None,
        *old(accumulator) is Some ==> *final(accumulator) is Some && r is Some && agg_step(
            old(accumulator)->0@,
            final(accumulator)->0@,
            value,
            agg_copies(weight as int, distinct, keep),
        ) && clone_of(final(accumulator)->0@, r->0@),
{
    match accumulator {
        None => None,
        Some(acc) => Some(array_agg(acc, value, weight, distinct, keep)),
    }
}

/// `array_agg` on optional values; with `ignore_nulls` an absent value adds
/// nothing.
pub fn array_agg_opt<T>(
    accumulator: &mut Vec<Option<T>>,
    value: Option<T>,
    weight: i64,
    distinct: bool,
    keep: bool,
    ignore_nulls: bool,
) -> (r: Vec<Option<T>>)
    where
        T: Clone,
    requires
        weight >= 0,
    ensures
        agg_step(
            old(accumulator)@,
            final(accumulator)@,
            value,
            if ignore_nulls && value is None {
                0
            } else {
                agg_copies(weight as int, distinct, keep)
            },
        ),
        clone_of(final(accumulator)@, r@),
{
    if ignore_nulls && value.is_none() {
        assert(accumulator@.subrange(0, accumulator@.len() as int) =~= accumulator@);
        accumulator.clone()
    } else {
        array_agg(accumulator, value, weight, distinct, keep)
    }
}

/// `array_agg_opt` on an optional accumulator.
pub fn array_agg_optN<T>(
    accumulator: &mut Option<Vec<Option<T>>>,
    value: Option<T>,
    weight: i64,
    distinct: bool,
    keep: bool,
    ignore_nulls: bool,
) -> (r: Option<Vec<Option<T>>>)
    where
        T: Clone,
    requires
        weight >= 0,
    ensures
        *old(accumulator) is None ==> *final(accumulator) is None && r is None,
        *old(accumulator) is Some ==> *final(accumulator) is Some && r is Some && agg_step(
            old(accumulator)->0@,
            final(accumulator)->0@,
            value,
            if ignore_nulls && value is None {
                0
            } else {
                agg_copies(weight as int, distinct, keep)
            },
        ) && clone_of(final(accumulator)->0@, r->0@),
{
    match accumulator {
        None => None,
        Some(acc) => Some(array_agg_opt(acc, value, weight, distinct, keep, ignore_nulls)),
    }
}

/// Whether the ordering of `T` is a total order whose equality is `==`.
pub open spec fn total_order<T: Ord>() -> bool {
    obeys_cmp::<T>() && obeys_concrete_eq::<T>()
}

/// `a` comes at or before `b` in the ordering of `T`.
pub open spec fn le<T: Ord>(a: T, b: T) -> bool {
    a.cmp_spec(&b) != Ordering::Greater
}

/// `r` is a largest element of a non-empty `s`.
pub open spec fn is_max<T: Ord>(s: Seq<T>, r: T) -> bool {
    s.contains(r) && forall|i: int| 0 <= i < s.len() ==> le(#[trigger] s[i], r)
}

/// `r` is a smallest element of a non-empty `s`.
pub open spec fn is_min<T: Ord>(s: Seq<T>, r: T) -> bool {
    s.contains(r) && forall|i: int| 0 <= i < s.len() ==> le(r, #[trigger] s[i])
}

/// Whether `s` is in ascending order, or in descending order when not
/// `ascending`.
pub open spec fn sorted_by<T: Ord>(s: Seq<T>, ascending: bool) -> bool {
    forall|i: int, j: int|
        0 <= i < j < s.len() ==> if ascending {
            le(#[trigger] s[i], #[trigger] s[j])
        } else {
            le(s[j], s[i])
        }
}

proof fn lemma_total_order<T: Ord>()
    requires
        total_order::<T>(),
    ensures
        forall|a: T, b: T| #[trigger] le(a, b) || le(b, a),
        forall|a: T, b: T| le(a, b) && le(b, a) ==> a == b,
        forall|a: T, b: T, c: T| #[trigger] le(a, b) && #[trigger] le(b, c) ==> le(a, c),
        forall|a: T, b: T| (#[trigger] a.cmp_spec(&b) == Ordering::Less) <==> !le(b, a),
{
    reveal(obeys_concrete_eq);
    reveal(vstd::laws_cmp::obeys_partial_cmp_spec_properties);
    reveal(vstd::laws_cmp::obeys_cmp_partial_ord);
    reveal(vstd::laws_cmp::obeys_cmp_ord);
    reveal(vstd::laws_eq::obeys_eq_spec_properties);
    assert forall|a: T, b: T| (#[trigger] a.cmp_spec(&b) == Ordering::Less) <==> !le(b, a) by {
        assert(a.partial_cmp_spec(&b) == Some(a.cmp_spec(&b)));
        assert(b.partial_cmp_spec(&a) == Some(b.cmp_spec(&a)));
    }
    assert forall|a: T, b: T| #[trigger] le(a, b) || le(b, a) by {
        assert(a.partial_cmp_spec(&b) == Some(a.cmp_spec(&b)));
        assert(b.partial_cmp_spec(&a) == Some(b.cmp_spec(&a)));
    }
    assert forall|a: T, b: T| le(a, b) && le(b, a) implies a == b by {
        assert(a.partial_cmp_spec(&b) == Some(a.cmp_spec(&b)));
        assert(b.partial_cmp_spec(&a) == Some(b.cmp_spec(&a)));
    }
    assert forall|a: T, b: T, c: T| #[trigger] le(a, b) && #[trigger] le(b, c) implies le(a, c) by {
        assert(a.partial_cmp_spec(&b) == Some(a.cmp_spec(&b)));
        assert(b.partial_cmp_spec(&c) == Some(b.cmp_spec(&c)));
        assert(a.partial_cmp_spec(&c) == Some(a.cmp_spec(&c)));
        if a.cmp_spec(&b) == Ordering::Equal {
            assert(a.eq_spec(&b));
        } else if b.cmp_spec(&c) == Ordering::Equal {
            assert(b.eq_spec(&c));
        }
    }
}

/// A largest element; `None` for an empty vector.
pub fn array_max__<T>(vector: Vec<T>) -> (r: Option<T>)
    where
        T: Ord,
    requires
        total_order::<T>(),
    ensures
        vector@.len() == 0 <==> r is None,
        r matches Some(m) ==> is_max(vector@, m),
{
    proof {
        lemma_total_order::<T>();
        reveal(vstd::laws_cmp::obeys_cmp_ord);
    }
    let ghost v0 = vector@;
    let mut rest = vector;
    let mut best: Option<T> = None;
    let ghost mut at: int = 0;
    while rest.len() > 0
        invariant
            total_order::<T>(),
            T::obeys_cmp_spec(),
            forall|a: T, b: T| #[trigger] le(a, b) || le(b, a),
            forall|a: T, b: T, c: T| #[trigger] le(a, b) && #[trigger] le(b, c) ==> le(a, c),
            rest@.len() <= v0.len(),
            rest@ == v0.subrange(0, rest@.len() as int),
            best is None <==> rest@.len() == v0.len(),
            best matches Some(m) ==> rest@.len() <= at < v0.len() && v0[at] == m
                && forall|i: int| rest@.len() <= i < v0.len() ==> le(#[trigger] v0[i], m),
        decreases rest@.len(),
    {
        let ghost before = rest@;
        let x = rest.pop().unwrap();
        let k = rest.len();
        assert(x == before[k as int]);
        assert(x == v0[k as int]);
        best = match best {
            None => Some(x),
            Some(m) => {
                assert(le(x, m) || le(m, x));
                if let Ordering::Greater = x.cmp(&m) {
                    Some(x)
                } else {
                    Some(m)
                }
            },
        };
        proof {
            if best is Some && best->0 == x {
                at = k as int;
            }
        }
    }
    proof {
        if best is Some {
            assert(v0[at] == best->0);
        }
    }
    best
}

/// A smallest element; `None` for an empty vector.
pub fn array_min__<T>(vector: Vec<T>) -> (r: Option<T>)
    where
        T: Ord,
    requires
        total_order::<T>(),
    ensures
        vector@.len() == 0 <==> r is None,
        r matches Some(m) ==> is_min(vector@, m),
{
    proof {
        lemma_total_order::<T>();
        reveal(vstd::laws_cmp::obeys_cmp_ord);
    }
    let ghost v0 = vector@;
    let mut rest = vector;
    let mut best: Option<T> = None;
    let ghost mut at: int = 0;
    while rest.len() > 0
        invariant
            total_order::<T>(),
            T::obeys_cmp_spec(),
            forall|a: T, b: T| #[trigger] le(a, b) || le(b, a),
            forall|a: T, b: T, c: T| #[trigger] le(a, b) && #[trigger] le(b, c) ==> le(a, c),
            rest@.len() <= v0.len(),
            rest@ == v0.subrange(0, rest@.len() as int),
            best is None <==> rest@.len() == v0.len(),
            best matches Some(m) ==> rest@.len() <= at < v0.len() && v0[at] == m,
            best matches Some(m) ==> forall|i: int| rest@.len() <= i < v0.len() ==> le(m, #[trigger] v0[i]),
        decreases rest@.len(),
    {
        let ghost before = rest@;
        let ghost prev = best;
        let x = rest.pop().unwrap();
        let k = rest.len();
        assert(x == before[k as int]);
        assert(x == v0[k as int]);
        assert(le(x, x));
        best = match best {
            None => Some(x),
            Some(m) => {
                assert(le(x, m) || le(m, x));
                if let Ordering::Greater = x.cmp(&m) {
                    Some(m)
                } else {
                    Some(x)
                }
            },
        };
        proof {
            if best is Some && best->0 == x {
                at = k as int;
            }
            assert forall|i: int| k <= i < v0.len() implies le(best->0, #[trigger] v0[i]) by {
                if i > k {
                    let m = prev->0;
                    assert(le(m, v0[i]));
                    if best->0 == x {
                        assert(le(x, m));
                    }
                }
            }
        }
    }
    proof {
        if best is Some {
            assert(v0[at] == best->0);
        }
    }
    best
}

/// `array_max__` of an optional vector.
pub fn array_maxN_<T>(vector: Option<Vec<T>>) -> (r: Option<T>)
    where
        T: Ord,
    requires
        total_order::<T>(),
    ensures
        match vector {
            None => r is None,
            Some(v) => (v@.len() == 0 <==> r is None) && (r matches Some(m) ==> is_max(v@, m)),
        },
{
    match vector {
        None => None,
        Some(v) => array_max__(v),
    }
}

/// A largest definite element; `None` when there is none.
pub fn array_max_N<T>(vector: Vec<Option<T>>) -> (r: Option<T>)
    where
        T: Ord,
    requires
        total_order::<T>(),
    ensures
        present(vector@).len() == 0 <==> r is None,
        r matches Some(m) ==> is_max(present(vector@), m),
{
    array_max__(array_compact_(vector))
}

/// `array_max_N` of an optional vector.
pub fn array_maxNN<T>(vector: Option<Vec<Option<T>>>) -> (r: Option<T>)
    where
        T: Ord,
    requires
        total_order::<T>(),
    ensures
        match vector {
            None => r is None,
            Some(v) => (present(v@).len() == 0 <==> r is None) && (r matches Some(m) ==> is_max(
                present(v@),
                m,
            )),
        },
{
    match vector {
        None => None,
        Some(v) => array_max_N(v),
    }
}

/// `array_min__` of an optional vector.
pub fn array_minN_<T>(vector: Option<Vec<T>>) -> (r: Option<T>)
    where
        T: Ord,
    requires
        total_order::<T>(),
    ensures
        match vector {
            None => r is None,
            Some(v) => (v@.len() == 0 <==> r is None) && (r matches Some(m) ==> is_min(v@, m)),
        },
{
    match vector {
        None => None,
        Some(v) => array_min__(v),
    }
}

/// A smallest definite element; `None` when there is none.
pub fn array_min_N<T>(vector: Vec<Option<T>>) -> (r: Option<T>)
    where
        T: Ord,
    requires
        total_order::<T>(),
    ensures
        present(vector@).len() == 0 <==> r is None,
        r matches Some(m) ==> is_min(present(vector@), m),
{
    array_min__(array_compact_(vector))
}

/// `array_min_N` of an optional vector.
pub fn array_minNN<T>(vector: Option<Vec<Option<T>>>) -> (r: Option<T>)
    where
        T: Ord,
    requires
        total_order::<T>(),
    ensures
        match vector {
            None => r is None,
            Some(v) => (present(v@).len() == 0 <==> r is None) && (r matches Some(m) ==> is_min(
                present(v@),
                m,
            )),
        },
{
    match vector {
        None => None,
        Some(v) => array_min_N(v),
    }
}

/// Whether `x` goes before `y` when sorting in the given direction.
pub open spec fn goes_before<T: Ord>(x: T, y: T, ascending: bool) -> bool {
    if ascending {
        x.cmp_spec(&y) == Ordering::Less
    } else {
        x.cmp_spec(&y) == Ordering::Greater
    }
}

/// Whether `x` goes before `y` when sorting in the given direction.
fn precedes<T: Ord>(x: &T, y: &T, ascending: bool) -> (r: bool)
    requires
        T::obeys_cmp_spec(),
    ensures
        r == goes_before(*x, *y, ascending),
{
    match x.cmp(y) {
        Ordering::Less => ascending,
        Ordering::Greater => !ascending,
        Ordering::Equal => false,
    }
}

/// The vector sorted in ascending order, or descending when not `ascending`.
pub fn sort_array<T>(vector: Vec<T>, ascending: bool) -> (r: Vec<T>)
    where
        T: Ord,
    requires
        total_order::<T>(),
    ensures
        r@.to_multiset() == vector@.to_multiset(),
        sorted_by(r@, ascending),
{
    broadcast use vstd::seq_lib::group_to_multiset_ensures;

    proof {
        lemma_total_order::<T>();
        reveal(vstd::laws_cmp::obeys_cmp_ord);
        reveal(vstd::laws_cmp::obeys_partial_cmp_spec_properties);
        reveal(vstd::laws_cmp::obeys_cmp_partial_ord);
    }
    let ghost v0 = vector@;
    let mut rest = vector;
    let mut out: Vec<T> = Vec::new();
    while rest.len() > 0
        invariant
            total_order::<T>(),
            T::obeys_cmp_spec(),
            forall|a: T, b: T| #[trigger] le(a, b) || le(b, a),
            forall|a: T, b: T, c: T| #[trigger] le(a, b) && #[trigger] le(b, c) ==> le(a, c),
            forall|a: T, b: T| (#[trigger] a.cmp_spec(&b) == Ordering::Less) <==> !le(b, a),
            out@.to_multiset().add(rest@.to_multiset()) == v0.to_multiset(),
            sorted_by(out@, ascending),
        decreases rest@.len(),
    {
        let ghost r0 = rest@;
        let x = rest.pop().unwrap();
        proof {
            assert(r0 =~= rest@.push(x));
        }
        let mut pos: usize = 0;
        while pos < out.len() && !precedes(&x, &out[pos], ascending)
            invariant
                total_order::<T>(),
                T::obeys_cmp_spec(),
                pos <= out@.len(),
                forall|k: int| 0 <= k < pos ==> !goes_before(x, #[trigger] out@[k], ascending),
            decreases out@.len() - pos,
        {
            pos = pos + 1;
        }
        let ghost o0 = out@;
        out.insert(pos, x);
        proof {
            assert(out@.remove(pos as int) =~= o0);
            assert(out@[pos as int] == x);
            let m = out@.to_multiset();
            out@.to_multiset_ensures();
            rest@.to_multiset_ensures();
            assert(o0.to_multiset() == m.remove(out@[pos as int]));
            assert(out@.contains(x));
            assert(m.count(x) > 0);
            assert(m =~= m.remove(x).insert(x));
            assert(out@.to_multiset() =~= o0.to_multiset().insert(x));
            assert(r0.to_multiset() =~= rest@.to_multiset().insert(x));
            assert(out@.to_multiset().add(rest@.to_multiset()) =~= o0.to_multiset().add(
                r0.to_multiset(),
            ));
            assert forall|i: int, j: int| 0 <= i < j < out@.len() implies if ascending {
                le(#[trigger] out@[i], #[trigger] out@[j])
            } else {
                le(out@[j], out@[i])
            } by {
                if i < pos && j == pos {
                    assert(!goes_before(x, o0[i], ascending));
                } else if i == pos && j > pos {
                    if pos < o0.len() {
                        assert(goes_before(x, o0[pos as int], ascending));
                        assert(out@[j] == o0[j - 1]);
                        if j - 1 > pos {
                            assert(if ascending {
                                le(o0[pos as int], o0[j - 1])
                            } else {
                                le(o0[j - 1], o0[pos as int])
                            });
                        }
                    }
                } else if i < pos && j > pos {
                    assert(out@[j] == o0[j - 1]);
                    assert(out@[i] == o0[i]);
                } else if i > pos {
                    assert(out@[j] == o0[j - 1]);
                    assert(out@[i] == o0[i - 1]);
                } else {
                    assert(out@[j] == o0[j]);
                    assert(out@[i] == o0[i]);
                }
            }
        }
    }
    proof {
        assert(rest@.to_multiset() =~= Multiset::<T>::empty());
        assert(out@.to_multiset().add(Multiset::<T>::empty()) =~= out@.to_multiset());
    }
    out
}

/// `sort_array` of an optional vector.
pub fn sort_arrayN<T>(vector: Option<Vec<T>>, ascending: bool) -> (r: Option<Vec<T>>)
    where
        T: Ord,
    requires
        total_order::<T>(),
    ensures
        vector is None <==> r is None,
        vector is Some ==> r->0@.to_multiset() == vector->0@.to_multiset() && sorted_by(
            r->0@,
            ascending,
        ),
{
    match vector {
        None => None,
        Some(v) => Some(sort_array(v, ascending)),
    }
}

} // verus!

//! Search in a sequence for the first element that a predicate holds of.
use vstd::prelude::*;

verus! {

/// The index of the first element from `from` on of which `pred` holds.
pub open spec fn first_from<T>(s: Seq<T>, pred: spec_fn(T) -> bool, from: int) -> Option<int>
    decreases s.len() - from,
{
    if from < 0 || from >= s.len() {
        None
    } else if pred(s[from]) {
        Some(from)
    } else {
        first_from(s, pred, from + 1)
    }
}

/// The index of the first element of which `pred` holds.
pub open spec fn first_index<T>(s: Seq<T>, pred: spec_fn(T) -> bool) -> Option<int> {
    first_from(s, pred, 0)
}

/// What the first index is: `pred` holds at it and nowhere before it, and
/// where there is none, `pred` holds nowhere.
pub proof fn lemma_first_from<T>(s: Seq<T>, pred: spec_fn(T) -> bool, from: int)
    requires
        0 <= from,
    ensures
        match first_from(s, pred, from) {
            Some(i) => from <= i < s.len() && pred(s[i]) && forall|j: int|
                from <= j < i ==> !pred(s[j]),
            None => forall|j: int| from <= j < s.len() ==> !pred(s[j]),
        },
    decreases s.len() - from,
{
    if from < s.len() && !pred(s[from]) {
        lemma_first_from(s, pred, from + 1);
    }
}

/// A search from a position on sees only what stands there.
pub proof fn lemma_first_from_same<T>(
    s: Seq<T>,
    t: Seq<T>,
    pred: spec_fn(T) -> bool,
    from: int,
)
    requires
        0 <= from,
        s.len() == t.len(),
        forall|j: int| from <= j < s.len() ==> pred(#[trigger] s[j]) == pred(t[j]),
    ensures
        first_from(s, pred, from) == first_from(t, pred, from),
    decreases s.len() - from,
{
    if from < s.len() {
        assert(pred(s[from]) == pred(t[from]));
        if !pred(s[from]) {
            lemma_first_from_same(s, t, pred, from + 1);
        }
    }
}

/// An element put in the place of another of which `pred` holds as much
/// leaves the first index where it was.
pub proof fn lemma_first_update<T>(s: Seq<T>, pred: spec_fn(T) -> bool, i: int, x: T)
    requires
        0 <= i < s.len(),
        pred(s[i]) == pred(x),
    ensures
        first_index(s.update(i, x), pred) == first_index(s, pred),
{
    lemma_first_from_same(s.update(i, x), s, pred, 0);
}

/// One more element at the end: the first index stays where it was, or is
/// that of the new element where there was none and `pred` holds of it.
pub proof fn lemma_first_push<T>(s: Seq<T>, pred: spec_fn(T) -> bool, x: T, from: int)
    requires
        0 <= from <= s.len(),
    ensures
        first_from(s.push(x), pred, from) == (match first_from(s, pred, from) {
            Some(i) => Some(i),
            None => if pred(x) {
                Some(s.len() as int)
            } else {
                None
            },
        }),
    decreases s.len() - from,
{
    if from < s.len() {
        assert(s.push(x)[from] == s[from]);
        if !pred(s[from]) {
            lemma_first_push(s, pred, x, from + 1);
        }
    } else {
        assert(s.push(x)[from] == x);
        assert(first_from(s.push(x), pred, from + 1) is None);
    }
}

} // verus!

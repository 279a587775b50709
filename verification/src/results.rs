//! Results that are built item by item and end at the first failure.

use vstd::prelude::*;

verus! {

/// Puts one item in front of what the rest of the input gives.
pub open spec fn emit<T, E>(t: T, rest: Result<Seq<T>, E>) -> Result<Seq<T>, E> {
    match rest {
        Ok(ts) => Ok(seq![t] + ts),
        Err(e) => Err(e),
    }
}

/// Puts the items already read in front of what the rest of the input gives.
pub open spec fn after<T, E>(pre: Seq<T>, rest: Result<Seq<T>, E>) -> Result<Seq<T>, E> {
    match rest {
        Ok(ts) => Ok(pre + ts),
        Err(e) => Err(e),
    }
}

/// An item emitted in front of the rest is an item more among those
/// already read.
pub proof fn lemma_after_emit<T, E>(pre: Seq<T>, t: T, rest: Result<Seq<T>, E>)
    ensures
        after(pre, emit(t, rest)) == after(pre.push(t), rest),
{
    match rest {
        Ok(ts) => {
            assert(pre + (seq![t] + ts) =~= pre.push(t) + ts);
        },
        Err(_) => {},
    }
}

/// With nothing read yet, the rest is the whole result.
pub proof fn lemma_after_nothing<T, E>(rest: Result<Seq<T>, E>)
    ensures
        after(Seq::<T>::empty(), rest) == rest,
{
    match rest {
        Ok(ts) => {
            assert(Seq::<T>::empty() + ts =~= ts);
        },
        Err(_) => {},
    }
}

/// With nothing left to read, what was read is the whole result.
pub proof fn lemma_after_end<T, E>(pre: Seq<T>)
    ensures
        after(pre, Ok::<Seq<T>, E>(Seq::<T>::empty())) == Ok::<Seq<T>, E>(pre),
{
    assert(pre + Seq::<T>::empty() =~= pre);
}

} // verus!

//! Going through a list in which any step may fail.

use vstd::prelude::*;
use crate::error::DocError;

verus! {

/// The parts one after the other, unless one of them is an error: then the
/// first that is.
pub open spec fn gather<T>(parts: Seq<Result<Seq<T>, DocError>>) -> Result<Seq<T>, DocError>
    decreases parts.len(),
{
    if parts.len() == 0 {
        Ok(Seq::empty())
    } else {
        match gather(parts.drop_last()) {
            Err(error) => Err(error),
            Ok(front) => match parts.last() {
                Err(error) => Err(error),
                Ok(last) => Ok(front + last),
            },
        }
    }
}

/// An error among the first parts is the error of the whole.
pub proof fn lemma_gather_error<T>(parts: Seq<Result<Seq<T>, DocError>>, upto: int)
    requires
        0 <= upto <= parts.len(),
        gather(parts.take(upto)) is Err,
    ensures
        gather(parts) == gather(parts.take(upto)),
    decreases parts.len() - upto,
{
    if upto == parts.len() {
        assert(parts.take(upto) =~= parts);
    } else {
        assert(parts.take(upto + 1).drop_last() =~= parts.take(upto));
        lemma_gather_error(parts, upto + 1);
    }
}

/// With the first parts gathered, the next part decides how it goes on.
pub proof fn lemma_gather_next<T>(parts: Seq<Result<Seq<T>, DocError>>, upto: int)
    requires
        0 <= upto < parts.len(),
        gather(parts.take(upto)) is Ok,
    ensures
        gather(parts.take(upto + 1)) == match parts[upto] {
            Err(error) => Err::<Seq<T>, DocError>(error),
            Ok(last) => Ok(gather(parts.take(upto))->Ok_0 + last),
        },
{
    assert(parts.take(upto + 1).drop_last() =~= parts.take(upto));
    assert(parts.take(upto + 1).last() == parts[upto]);
}

/// A part that succeeded with nothing may as well not have been in the
/// list.
pub proof fn lemma_gather_skips_empty<T>(parts: Seq<Result<Seq<T>, DocError>>, i: int)
    requires
        0 <= i < parts.len(),
        parts[i] == Ok::<Seq<T>, DocError>(Seq::empty()),
    ensures
        gather(parts.remove(i)) == gather(parts),
    decreases parts.len(),
{
    let last = parts.len() - 1;
    if i == last {
        assert(parts.remove(i) =~= parts.drop_last());
        if gather(parts.drop_last()) is Ok {
            let front = gather(parts.drop_last())->Ok_0;
            assert(front + Seq::<T>::empty() =~= front);
        }
    } else {
        assert(parts.remove(i).drop_last() =~= parts.drop_last().remove(i));
        assert(parts.remove(i).last() == parts.last());
        lemma_gather_skips_empty(parts.drop_last(), i);
    }
}

/// One outcome as a part: what succeeded, alone in a list, or the error.
pub open spec fn one<T>(outcome: Result<T, DocError>) -> Result<Seq<T>, DocError> {
    match outcome {
        Ok(value) => Ok(seq![value]),
        Err(error) => Err(error),
    }
}

} // verus!

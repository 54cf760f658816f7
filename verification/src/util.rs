//! Small helpers for vectors.
use vstd::prelude::*;

verus! {

/// A copy of a vector.
pub fn copy_vec<T: Copy>(source: &Vec<T>) -> (result: Vec<T>)
    ensures
        result@ == source@,
{
    let mut result = Vec::with_capacity(source.len());
    let mut i: usize = 0;
    while i < source.len()
        invariant
            i <= source@.len(),
            result@ == source@.take(i as int),
        decreases source@.len() - i,
    {
        result.push(source[i]);
        i += 1;
        assert(source@.take(i as int) =~= source@.take(i - 1).push(source@[i - 1]));
    }
    assert(source@.take(i as int) =~= source@);
    result
}

/// A copy of a vector from an index on.
pub fn copy_from<T: Copy>(source: &Vec<T>, start: usize) -> (result: Vec<T>)
    requires
        start <= source@.len(),
    ensures
        result@ == source@.skip(start as int),
{
    let mut result = Vec::new();
    let mut i = start;
    while i < source.len()
        invariant
            start <= i <= source@.len(),
            result@ == source@.subrange(start as int, i as int),
        decreases source@.len() - i,
    {
        result.push(source[i]);
        i += 1;
        assert(source@.subrange(start as int, i as int) =~= source@.subrange(
            start as int,
            i - 1,
        ).push(source@[i - 1]));
    }
    assert(source@.subrange(start as int, i as int) =~= source@.skip(start as int));
    result
}

/// Copies the elements of `source` to the end of `target`.
pub fn append_copy<T: Copy>(target: &mut Vec<T>, source: &Vec<T>)
    ensures
        final(target)@ == old(target)@ + source@,
{
    let mut i: usize = 0;
    while i < source.len()
        invariant
            i <= source@.len(),
            target@ == old(target)@ + source@.take(i as int),
        decreases source@.len() - i,
    {
        target.push(source[i]);
        i += 1;
        assert(source@.take(i as int) =~= source@.take(i - 1).push(source@[i - 1]));
    }
    assert(source@.take(i as int) =~= source@);
}

} // verus!

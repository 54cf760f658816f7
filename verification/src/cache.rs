//! A one-slot cache for a computation that depends on one argument.
use vstd::prelude::*;

verus! {

/// Wraps a parameterized computation and caches its latest output.
///
/// - When the computation is performed multiple times consecutively with the same argument,
///   reuses the cache.
/// - When the argument changes, the new output is cached.
///
/// Arguments are told apart by their hash.
#[derive(Debug)]
pub struct CachedCell<T> {
    /// The hash of the latest argument and the output for it.
    slot: Option<(u128, T)>,
}

impl<T> View for CachedCell<T> {
    type V = Option<(u128, T)>;

    closed spec fn view(&self) -> Option<(u128, T)> {
        self.slot
    }
}

impl<T> CachedCell<T> {
    /// Create an empty cached cell.
    pub fn new() -> (result: CachedCell<T>)
        ensures
            result@ is None,
    {
        CachedCell { slot: None }
    }

    /// Whether the cell holds the output for the argument with the given hash.
    pub open spec fn holds(&self, input_hash: u128) -> bool {
        self@ matches Some(entry) && entry.0 == input_hash
    }

    /// The output that the cell holds.
    pub open spec fn output(&self) -> T
        recommends
            self@ is Some,
    {
        self@.unwrap().1
    }

    /// Perform the computation `f` with caching.
    ///
    /// `input_hash` is the hash of `input`.
    pub fn get_or_init<I, F: FnOnce(I) -> T>(
        &mut self,
        input_hash: u128,
        input: I,
        f: F,
    ) -> (result: T) where T: Clone
        requires
            !old(self).holds(input_hash) ==> f.requires((input,)),
        ensures
            old(self).holds(input_hash) ==> final(self)@ == old(self)@ && cloned(
                old(self).output(),
                result,
            ),
            !old(self).holds(input_hash) ==> final(self).holds(input_hash) && f.ensures(
                (input,),
                result,
            ) && cloned(result, final(self).output()),
    {
        if let Some((hash, output)) = &self.slot {
            if *hash == input_hash {
                return output.clone();
            }
        }
        let output = f(input);
        self.slot = Some((input_hash, output.clone()));
        output
    }
}

impl<T> Default for CachedCell<T> {
    fn default() -> (result: CachedCell<T>)
        ensures
            result@ is None,
    {
        CachedCell::new()
    }
}

impl<T: Clone> Clone for CachedCell<T> {
    fn clone(&self) -> (result: CachedCell<T>)
        ensures
            match self@ {
                Some(entry) => result.holds(entry.0) && cloned(entry.1, result.output()),
                None => result@ is None,
            },
    {
        match &self.slot {
            Some((hash, output)) => CachedCell { slot: Some((*hash, output.clone())) },
            None => CachedCell { slot: None },
        }
    }
}

} // verus!

//! The registry of active filesystem watches. The host shell owns the
//! OS-level notifier and forwards its raw events; this registry is the
//! explicit record of what was asked to be watched, with a teardown path,
//! in place of leaking the watch handles. Watches stack: asking twice for
//! one path records two entries, deliberately without deduplication.

use vstd::prelude::*;

verus! {

/// The registered paths after dropping every entry for one path.
pub open spec fn watches_without(s: Seq<String>, path: Seq<char>) -> Seq<String>
    decreases s.len(),
{
    if s.len() <= 0 {
        Seq::empty()
    } else {
        let rest = watches_without(s.drop_last(), path);
        if s.last()@ != path {
            rest.push(s.last())
        } else {
            rest
        }
    }
}

/// Every path currently being monitored, in registration order, one entry
/// per registration.
pub struct WatchRegistry {
    pub watches: Vec<String>,
}

impl WatchRegistry {
    /// A registry with nothing watched.
    pub fn new() -> (r: WatchRegistry)
        ensures
            r.watches@.len() == 0,
    {
        WatchRegistry { watches: Vec::new() }
    }

    /// Record one more watch on this path. Watches stack: a path already
    /// registered is registered again.
    pub fn watch(&mut self, path: String)
        ensures
            final(self).watches@ == old(self).watches@.push(path),
    {
        self.watches.push(path);
    }

    /// How many watches are registered.
    pub fn watch_count(&self) -> (r: usize)
        ensures
            r == self.watches@.len(),
    {
        self.watches.len()
    }

    /// Tear down every watch on this path; other paths are untouched.
    #[verifier::loop_isolation(false)]
    pub fn unwatch(&mut self, path: &String)
        ensures
            final(self).watches@ == watches_without(old(self).watches@, path@),
    {
        let mut kept: Vec<String> = Vec::new();
        let mut i: usize = 0;
        while i < self.watches.len()
            invariant
                i <= self.watches@.len(),
                kept@ == watches_without(self.watches@.take(i as int), path@),
            decreases self.watches@.len() - i,
        {
            proof {
                assert(self.watches@.take(i + 1).drop_last() =~= self.watches@.take(i as int));
                assert(self.watches@.take(i + 1).last() == self.watches@[i as int]);
            }
            if !(self.watches[i] == *path) {
                kept.push(self.watches[i].clone());
            }
            i += 1;
        }
        proof {
            assert(self.watches@.take(self.watches@.len() as int) =~= self.watches@);
        }
        self.watches = kept;
    }
}

} // verus!

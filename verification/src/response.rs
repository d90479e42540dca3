//! Finishing responses.
//!
//! An application may register, for an extractor, an extender that rewrites
//! the response of every route that declares the extractor. The finalizer
//! records for which extractors that has been done.

use vstd::prelude::*;
use crate::route::{ExtractorId, Extractors};

verus! {

/// Collects the extractors that have a response extender.
pub struct ResponseFinalizerBuilder {
    extended: Vec<ExtractorId>,
}

impl View for ResponseFinalizerBuilder {
    type V = Set<ExtractorId>;

    closed spec fn view(&self) -> Set<ExtractorId> {
        self.extended@.to_set()
    }
}

impl ResponseFinalizerBuilder {
    /// A builder that knows no extender.
    pub fn new() -> (builder: Self)
        ensures
            builder@ == Set::<ExtractorId>::empty(),
    {
        let builder = ResponseFinalizerBuilder { extended: Vec::new() };
        assert(builder@ =~= Set::<ExtractorId>::empty());
        builder
    }

    /// Records that `extractor` has a response extender.
    pub fn add(&mut self, extractor: ExtractorId)
        ensures
            final(self)@ == old(self)@.insert(extractor),
    {
        self.extended.push(extractor);
        proof {
            let before = old(self).extended@;
            let after = self.extended@;
            assert forall|e: ExtractorId| after.contains(e) <==> before.contains(e) || e
                == extractor by {
                if before.contains(e) {
                    let i = choose|i: int| 0 <= i < before.len() && before[i] == e;
                    assert(after[i] == e);
                }
                if e == extractor {
                    assert(after[before.len() as int] == e);
                }
            }
            assert(self@ =~= old(self)@.insert(extractor));
        }
    }

    /// Fixes the set of extended extractors.
    pub fn finalize(self) -> (finalizer: ResponseFinalizer)
        ensures
            finalizer@ == self@,
    {
        ResponseFinalizer { extended: self.extended }
    }
}

/// The extractors whose extender is to run on the responses of the routes
/// that declare them.
pub struct ResponseFinalizer {
    extended: Vec<ExtractorId>,
}

/// The extenders that are due for a route, path extractor first.
#[derive(Clone, Copy, PartialEq, Eq, Structural, Debug)]
pub struct Extenders {
    pub path: Option<ExtractorId>,
    pub query_string: Option<ExtractorId>,
}

/// The extender that is due for one declared extractor.
pub open spec fn extender_for(extended: Set<ExtractorId>, declared: Option<ExtractorId>) -> Option<
    ExtractorId,
> {
    match declared {
        Some(e) => if extended.contains(e) {
            Some(e)
        } else {
            None
        },
        None => None,
    }
}

impl View for ResponseFinalizer {
    type V = Set<ExtractorId>;

    closed spec fn view(&self) -> Set<ExtractorId> {
        self.extended@.to_set()
    }
}

impl ResponseFinalizer {
    /// Whether `extractor` has a response extender.
    pub fn extends(&self, extractor: ExtractorId) -> (known: bool)
        ensures
            known == self@.contains(extractor),
    {
        let mut i: usize = 0;
        while i < self.extended.len()
            invariant
                i <= self.extended@.len(),
                forall|j: int| 0 <= j < i ==> self.extended@[j] != extractor,
            decreases self.extended@.len() - i,
        {
            if self.extended[i] == extractor {
                return true;
            }
            i = i + 1;
        }
        false
    }

    /// The extenders to run on the response of a route that declares
    /// `extractors`: those of its extractors that have one.
    pub fn extenders(&self, extractors: Extractors) -> (due: Extenders)
        ensures
            due.path == extender_for(self@, extractors.path),
            due.query_string == extender_for(self@, extractors.query_string),
    {
        let path = match extractors.path {
            Some(e) => if self.extends(e) {
                Some(e)
            } else {
                None
            },
            None => None,
        };
        let query_string = match extractors.query_string {
            Some(e) => if self.extends(e) {
                Some(e)
            } else {
                None
            },
            None => None,
        };
        Extenders { path, query_string }
    }
}

} // verus!

//! Pipelines of middleware and the set that owns them.
//!
//! A pipeline is an ordered sequence of middleware, fixed once built. A
//! pipeline set owns the pipelines of a router; each is addressed by the
//! handle that the set gave out when the pipeline was added.

use vstd::prelude::*;

verus! {

/// Refers to one pipeline of a `PipelineSet`.
#[derive(Clone, Copy, PartialEq, Eq, Structural, Debug)]
pub struct PipelineHandle {
    pub index: usize,
}

/// An ordered sequence of middleware.
pub struct Pipeline<M> {
    middleware: Vec<M>,
}

/// A pipeline that is still being put together.
pub struct PipelineBuilder<M> {
    middleware: Vec<M>,
}

/// Starts a pipeline without middleware.
pub fn new_pipeline<M>() -> (builder: PipelineBuilder<M>)
    ensures
        builder@ == Seq::<M>::empty(),
{
    PipelineBuilder { middleware: Vec::new() }
}

impl<M> View for PipelineBuilder<M> {
    type V = Seq<M>;

    closed spec fn view(&self) -> Seq<M> {
        self.middleware@
    }
}

impl<M> PipelineBuilder<M> {
    /// Appends `middleware`, which will run after all that was added before.
    pub fn add(self, middleware: M) -> (builder: Self)
        ensures
            builder@ == self@.push(middleware),
    {
        let mut list = self.middleware;
        list.push(middleware);
        PipelineBuilder { middleware: list }
    }

    /// Fixes the pipeline.
    pub fn build(self) -> (pipeline: Pipeline<M>)
        ensures
            pipeline@ == self@,
    {
        Pipeline { middleware: self.middleware }
    }
}

impl<M> View for Pipeline<M> {
    type V = Seq<M>;

    closed spec fn view(&self) -> Seq<M> {
        self.middleware@
    }
}

impl<M> Pipeline<M> {
    /// The number of middleware in the pipeline.
    pub fn len(&self) -> (n: usize)
        ensures
            n == self@.len(),
    {
        self.middleware.len()
    }

    /// The middleware that runs at position `i`.
    pub fn get(&self, i: usize) -> (middleware: &M)
        requires
            i < self@.len(),
        ensures
            *middleware == self@[i as int],
    {
        &self.middleware[i]
    }
}

/// The pipelines of a router, in the order in which they were added.
pub struct PipelineSet<M> {
    pipelines: Vec<Pipeline<M>>,
}

impl<M> View for PipelineSet<M> {
    type V = Seq<Seq<M>>;

    closed spec fn view(&self) -> Seq<Seq<M>> {
        Seq::new(self.pipelines@.len(), |i: int| self.pipelines@[i]@)
    }
}

/// An empty pipeline set.
pub fn new_pipeline_set<M>() -> (set: PipelineSet<M>)
    ensures
        set@ == Seq::<Seq<M>>::empty(),
{
    let set = PipelineSet { pipelines: Vec::new() };
    assert(set@ =~= Seq::<Seq<M>>::empty());
    set
}

/// Closes a pipeline set: the value returned holds the same pipelines under
/// the same handles.
pub fn finalize_pipeline_set<M>(set: PipelineSet<M>) -> (finalized: PipelineSet<M>)
    ensures
        finalized@ == set@,
{
    set
}

impl<M> PipelineSet<M> {
    /// Whether `handle` refers to a pipeline of a set with this content.
    pub open spec fn knows(set: Seq<Seq<M>>, handle: PipelineHandle) -> bool {
        handle.index < set.len()
    }

    /// Adds `pipeline` and returns the set together with the handle of the
    /// new pipeline. Handles given out earlier keep their pipelines.
    pub fn add(self, pipeline: Pipeline<M>) -> (result: (Self, PipelineHandle))
        ensures
            result.0@ == self@.push(pipeline@),
            result.1.index == self@.len(),
    {
        let mut list = self.pipelines;
        let handle = PipelineHandle { index: list.len() };
        list.push(pipeline);
        let set = PipelineSet { pipelines: list };
        assert(set@ =~= self@.push(pipeline@));
        (set, handle)
    }

    /// The number of pipelines in the set.
    pub fn len(&self) -> (n: usize)
        ensures
            n == self@.len(),
    {
        self.pipelines.len()
    }

    /// Whether `handle` refers to a pipeline of this set.
    pub fn contains(&self, handle: PipelineHandle) -> (known: bool)
        ensures
            known == Self::knows(self@, handle),
    {
        handle.index < self.pipelines.len()
    }

    /// The pipeline that `handle` refers to, if the set has one.
    pub fn get(&self, handle: PipelineHandle) -> (pipeline: Option<&Pipeline<M>>)
        ensures
            pipeline is Some <==> Self::knows(self@, handle),
            pipeline matches Some(p) ==> p@ == self@[handle.index as int],
    {
        if handle.index < self.pipelines.len() {
            Some(&self.pipelines[handle.index])
        } else {
            None
        }
    }
}

} // verus!

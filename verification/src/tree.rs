//! The segment tree.
//!
//! Each node stands for one path segment and holds the routes registered for
//! the path that leads to it. A child is found by its key: the segment's text
//! together with its type. The tree is drawn through `NodeBuilder`, one node
//! at a time, and frozen into a `Tree` once it is complete.

use vstd::prelude::*;
use vstd::string::*;
use crate::path::strings_view;
use crate::pipeline::PipelineHandle;
use crate::route::{Delegation, Route, RouteView};

verus! {

/// How a node's segment is compared with a segment of a request.
#[derive(Clone, Copy, PartialEq, Eq, Structural, Debug)]
pub enum SegmentType {
    /// The request's segment must be this text.
    Static,
    /// Any segment is accepted and bound under the node's name.
    Dynamic,
}

/// The key under which a node is found among its siblings.
pub struct SegmentKey {
    pub name: Seq<char>,
    pub kind: SegmentType,
}

/// The key that a segment of a route definition stands for: a leading `:`
/// marks a dynamic segment and is not part of its name.
pub open spec fn route_key(segment: Seq<char>) -> SegmentKey {
    if segment.len() > 0 && segment[0] == ':' {
        SegmentKey { name: segment.skip(1), kind: SegmentType::Dynamic }
    } else {
        SegmentKey { name: segment, kind: SegmentType::Static }
    }
}

/// The keys of the segments of a route definition, from position `from` on.
pub open spec fn route_keys(segments: Seq<Seq<char>>, from: int) -> Seq<SegmentKey>
    recommends
        0 <= from <= segments.len(),
{
    Seq::new((segments.len() - from) as nat, |i: int| route_key(segments[from + i]))
}

/// A node, its routes and the subtree below it.
pub struct NodeView<H> {
    pub segment: Seq<char>,
    pub segment_type: SegmentType,
    pub children: Seq<NodeView<H>>,
    pub routes: Seq<RouteView<H>>,
}

impl<H> NodeView<H> {
    /// A node for `key` without children and routes.
    pub open spec fn fresh(key: SegmentKey) -> Self {
        NodeView {
            segment: key.name,
            segment_type: key.kind,
            children: Seq::empty(),
            routes: Seq::empty(),
        }
    }

    /// The key under which this node is found.
    pub open spec fn key(self) -> SegmentKey {
        SegmentKey { name: self.segment, kind: self.segment_type }
    }

    /// The position of the first child at or after `from` that has `key`.
    pub open spec fn child_from(self, key: SegmentKey, from: int) -> Option<int>
        decreases self.children.len() - from,
    {
        if from < 0 || from >= self.children.len() {
            None
        } else if self.children[from].key() == key {
            Some(from)
        } else {
            self.child_from(key, from + 1)
        }
    }

    /// The position of the first child that has `key`.
    pub open spec fn child(self, key: SegmentKey) -> Option<int> {
        self.child_from(key, 0)
    }

    /// This node with `route` registered after the routes it has.
    pub open spec fn with_route(self, route: RouteView<H>) -> Self {
        NodeView { routes: self.routes.push(route), ..self }
    }

    /// This node with `child` added after the children it has.
    pub open spec fn with_child(self, child: Self) -> Self {
        NodeView { children: self.children.push(child), ..self }
    }

    /// This node with the child at position `i` replaced.
    pub open spec fn with_child_at(self, i: int, child: Self) -> Self {
        NodeView { children: self.children.update(i, child), ..self }
    }

    /// The node that `keys` lead to from here. Where a key has no child yet,
    /// the walk goes on from a fresh node for that key.
    pub open spec fn descend(self, keys: Seq<SegmentKey>) -> Self
        decreases keys.len(),
    {
        if keys.len() == 0 {
            self
        } else {
            match self.child(keys[0]) {
                Some(i) => self.children[i].descend(keys.skip(1)),
                None => Self::fresh(keys[0]).descend(keys.skip(1)),
            }
        }
    }

    /// This tree with `leaf` in the place that `keys` lead to. Nodes missing
    /// on the way are created; nodes that exist are kept as they are.
    pub open spec fn graft(self, keys: Seq<SegmentKey>, leaf: Self) -> Self
        decreases keys.len(),
    {
        if keys.len() == 0 {
            leaf
        } else {
            match self.child(keys[0]) {
                Some(i) => self.with_child_at(i, self.children[i].graft(keys.skip(1), leaf)),
                None => self.with_child(Self::fresh(keys[0]).graft(keys.skip(1), leaf)),
            }
        }
    }
}

/// One dynamic segment bound to the text that a request had in its place.
pub struct BindingView {
    pub name: Seq<char>,
    pub value: Seq<char>,
}

/// Where a walk along a request's segments has ended.
pub struct PathMatch<H> {
    /// The node whose routes are candidates for the request.
    pub node: NodeView<H>,
    /// The dynamic segments passed on the way, first to last.
    pub bindings: Seq<BindingView>,
    /// How many segments the walk has used up.
    pub consumed: nat,
}

impl<H> PathMatch<H> {
    /// A walk that ends where it started.
    pub open spec fn here(node: NodeView<H>) -> Self {
        PathMatch { node, bindings: Seq::empty(), consumed: 0 }
    }

    /// This walk, seen from the parent, which it left through a static child.
    pub open spec fn through_static(self) -> Self {
        PathMatch { consumed: self.consumed + 1, ..self }
    }

    /// This walk, seen from the parent, which it left through the dynamic
    /// child named `name`, consuming the segment `value`.
    pub open spec fn through_dynamic(self, name: Seq<char>, value: Seq<char>) -> Self {
        PathMatch {
            node: self.node,
            bindings: seq![BindingView { name, value }] + self.bindings,
            consumed: self.consumed + 1,
        }
    }
}

impl<H> NodeView<H> {
    /// Whether one of the node's routes hands requests on to a nested
    /// router.
    pub open spec fn delegates(self) -> bool {
        exists|i: int|
            0 <= i < self.routes.len() && (#[trigger] self.routes[i]).delegation()
                == Delegation::External
    }

    /// The position of the first static child whose text is `segment`.
    pub open spec fn static_child(self, segment: Seq<char>) -> Option<int> {
        self.child(SegmentKey { name: segment, kind: SegmentType::Static })
    }

    /// The position of the first dynamic child at or after `from`.
    pub open spec fn dynamic_child_from(self, from: int) -> Option<int>
        decreases self.children.len() - from,
    {
        if from < 0 || from >= self.children.len() {
            None
        } else if self.children[from].segment_type == SegmentType::Dynamic {
            Some(from)
        } else {
            self.dynamic_child_from(from + 1)
        }
    }

    /// The position of the first dynamic child.
    pub open spec fn dynamic_child(self) -> Option<int> {
        self.dynamic_child_from(0)
    }

    /// The number of dynamic children among the first `upto` children.
    pub open spec fn dynamic_children(self, upto: int) -> nat
        decreases upto,
    {
        if upto <= 0 || upto > self.children.len() {
            0
        } else if self.children[upto - 1].segment_type == SegmentType::Dynamic {
            self.dynamic_children(upto - 1) + 1
        } else {
            self.dynamic_children(upto - 1)
        }
    }

    /// Whether every node of this tree has at most one dynamic child.
    pub open spec fn well_formed(self) -> bool
        decreases self,
    {
        &&& self.dynamic_children(self.children.len() as int) <= 1
        &&& forall|i: int| 0 <= i < self.children.len() ==> (#[trigger] self.children[i]).well_formed()
    }

    /// Where the walk from this node along `segments` ends, if it ends in a
    /// node whose routes are candidates for the request.
    ///
    /// With no segment left, that is this node, provided it has a route. With
    /// segments left, the walk goes on through the static child that has the
    /// first segment as its text; if there is none, or the walk from it
    /// fails, through the dynamic child, which binds the segment under its
    /// name; and if that fails too, it ends here provided this node hands
    /// requests on to a nested router.
    pub open spec fn match_path(self, segments: Seq<Seq<char>>) -> Option<PathMatch<H>>
        decreases segments.len(),
    {
        if segments.len() == 0 {
            if self.routes.len() > 0 {
                Some(PathMatch::here(self))
            } else {
                None
            }
        } else {
            let via_static = match self.static_child(segments[0]) {
                Some(i) => self.children[i].match_path(segments.skip(1)),
                None => None,
            };
            let via_dynamic = match self.dynamic_child() {
                Some(j) => match self.children[j].match_path(segments.skip(1)) {
                    Some(found) => Some(found.through_dynamic(self.children[j].segment, segments[0])),
                    None => None,
                },
                None => None,
            };
            if via_static is Some {
                Some(via_static->0.through_static())
            } else if via_dynamic is Some {
                via_dynamic
            } else if self.delegates() {
                Some(PathMatch::here(self))
            } else {
                None
            }
        }
    }
}

/// A node of the tree under construction.
pub struct NodeBuilder<H> {
    segment: String,
    segment_type: SegmentType,
    children: Vec<NodeBuilder<H>>,
    routes: Vec<Route<H>>,
}

impl<H> View for NodeBuilder<H> {
    type V = NodeView<H>;

    closed spec fn view(&self) -> NodeView<H> {
        self.model()
    }
}

impl<H> NodeBuilder<H> {
    /// The node and everything below it, as contracts see them.
    pub closed spec fn model(&self) -> NodeView<H>
        decreases self,
    {
        NodeView {
            segment: self.segment@,
            segment_type: self.segment_type,
            children: Seq::new(
                self.children@.len(),
                |i: int|
                    if 0 <= i < self.children@.len() {
                        self.children@[i].model()
                    } else {
                        arbitrary()
                    },
            ),
            routes: Seq::new(self.routes@.len(), |i: int| self.routes@[i]@),
        }
    }

    /// A node for the given segment, without children and routes.
    pub fn new(segment: &str, segment_type: SegmentType) -> (node: Self)
        ensures
            node@ == NodeView::<H>::fresh(SegmentKey { name: segment@, kind: segment_type }),
    {
        let node = NodeBuilder {
            segment: String::from_str(segment),
            segment_type,
            children: Vec::new(),
            routes: Vec::new(),
        };
        assert(node@.children =~= Seq::empty());
        assert(node@.routes =~= Seq::empty());
        node
    }

    /// Registers `route` after the routes that the node already has.
    pub fn add_route(&mut self, route: Route<H>)
        ensures
            final(self)@ == old(self)@.with_route(route@),
    {
        self.routes.push(route);
        assert(self@.children =~= old(self)@.children);
        assert(self@.routes =~= old(self)@.routes.push(route@));
    }

    /// Adds `child` after the children that the node already has.
    pub fn add_child(&mut self, child: NodeBuilder<H>)
        ensures
            final(self)@ == old(self)@.with_child(child@),
    {
        self.children.push(child);
        assert(self@.children =~= old(self)@.children.push(child@));
        assert(self@.routes =~= old(self)@.routes);
    }

    /// The position of the first child with the given key, if there is one.
    fn find_child(&self, segment: &str, segment_type: SegmentType) -> (found: Option<usize>)
        ensures
            found is Some <==> self@.child(SegmentKey { name: segment@, kind: segment_type }) is Some,
            found matches Some(i) ==> self@.child(
                SegmentKey { name: segment@, kind: segment_type },
            ) == Some(i as int) && i < self@.children.len(),
    {
        let ghost key = SegmentKey { name: segment@, kind: segment_type };
        let wanted = String::from_str(segment);
        let mut i: usize = 0;
        while i < self.children.len()
            invariant
                i <= self.children@.len(),
                self.children@.len() == self@.children.len(),
                key == (SegmentKey { name: segment@, kind: segment_type }),
                wanted@ == segment@,
                self@.child(key) == self@.child_from(key, i as int),
            decreases self.children@.len() - i,
        {
            let candidate = &self.children[i];
            assert(self@.children[i as int] == candidate@);
            if candidate.segment_type == segment_type && candidate.segment == wanted {
                assert(candidate@.key() == key);
                return Some(i);
            }
            i = i + 1;
        }
        None
    }

    /// The first child with the given key, to be changed in place.
    pub fn borrow_mut_child(&mut self, segment: &str, segment_type: SegmentType) -> (child:
        &mut NodeBuilder<H>)
        requires
            old(self)@.child(SegmentKey { name: segment@, kind: segment_type }) is Some,
        ensures
            ({
                let i = old(self)@.child(SegmentKey { name: segment@, kind: segment_type })->0;
                &&& 0 <= i < old(self)@.children.len()
                &&& child@ == old(self)@.children[i]
                &&& final(self)@ == old(self)@.with_child_at(i, final(child)@)
            }),
    {
        let found = self.find_child(segment, segment_type);
        let i = found.unwrap();
        proof {
            let a = *self;
            assert(a@.children.len() == a.children@.len());
            assert(a@.children[i as int] == a.children@[i as int]@);
            assert forall|b: NodeBuilder<H>|
                b.segment == a.segment && b.segment_type == a.segment_type && b.routes == a.routes
                    && b.children@ == a.children@.update(
                    i as int,
                    b.children@[i as int],
                ) implies #[trigger] b.model() == a@.with_child_at(
                i as int,
                b.children@[i as int].model(),
            ) by {
                assert(b.model().children =~= a@.children.update(
                    i as int,
                    b.children@[i as int].model(),
                ));
                assert(b.model().routes =~= a@.routes);
            }
        }
        &mut self.children[i]
    }

    /// Whether the node has a child with the given key.
    pub fn has_child(&self, segment: &str, segment_type: SegmentType) -> (found: bool)
        ensures
            found == self@.child(SegmentKey { name: segment@, kind: segment_type }) is Some,
    {
        self.find_child(segment, segment_type).is_some()
    }
}

/// Why a set of route definitions cannot be made into a router.
#[derive(Clone, Copy, PartialEq, Eq, Structural, Debug)]
pub enum BuildError {
    /// Some node has more than one dynamic child.
    ConflictingDynamicSegments,
    /// A pipeline chain names a pipeline that the pipeline set does not hold.
    UnknownPipeline,
}

/// One dynamic segment bound to the text that a request had in its place.
pub struct Binding {
    pub name: String,
    pub value: String,
}

impl View for Binding {
    type V = BindingView;

    open spec fn view(&self) -> BindingView {
        BindingView { name: self.name@, value: self.value@ }
    }
}

/// The values bound under `name`, in the order of the bindings.
pub open spec fn values_of(bindings: Seq<BindingView>, name: Seq<char>) -> Seq<Seq<char>>
    decreases bindings.len(),
{
    if bindings.len() == 0 {
        Seq::empty()
    } else if bindings.last().name == name {
        values_of(bindings.drop_last(), name).push(bindings.last().value)
    } else {
        values_of(bindings.drop_last(), name)
    }
}

/// The dynamic segments that a request's path has passed, first to last. A
/// name occurs once for each node of that name on the way.
pub struct SegmentMapping {
    bindings: Vec<Binding>,
}

impl View for SegmentMapping {
    type V = Seq<BindingView>;

    closed spec fn view(&self) -> Seq<BindingView> {
        Seq::new(self.bindings@.len(), |i: int| self.bindings@[i]@)
    }
}

impl SegmentMapping {
    /// A mapping without bindings.
    pub fn new() -> (mapping: Self)
        ensures
            mapping@ == Seq::<BindingView>::empty(),
    {
        let mapping = SegmentMapping { bindings: Vec::new() };
        assert(mapping@ =~= Seq::<BindingView>::empty());
        mapping
    }

    /// Puts a binding before those that the mapping holds.
    fn bind_first(&mut self, name: String, value: String)
        ensures
            final(self)@ == seq![BindingView { name: name@, value: value@ }] + old(self)@,
    {
        self.bindings.insert(0, Binding { name, value });
        assert(self@ =~= seq![BindingView { name: name@, value: value@ }] + old(self)@);
    }

    /// Puts a binding after those that the mapping holds.
    pub fn bind(&mut self, name: String, value: String)
        ensures
            final(self)@ == old(self)@.push(BindingView { name: name@, value: value@ }),
    {
        self.bindings.push(Binding { name, value });
        assert(self@ =~= old(self)@.push(BindingView { name: name@, value: value@ }));
    }

    /// The number of bindings.
    pub fn len(&self) -> (n: usize)
        ensures
            n == self@.len(),
    {
        self.bindings.len()
    }

    /// The binding at position `i`.
    pub fn binding(&self, i: usize) -> (binding: &Binding)
        requires
            i < self@.len(),
        ensures
            binding@ == self@[i as int],
    {
        &self.bindings[i]
    }

    /// The values bound under `name`, in the order in which the path passed
    /// them.
    pub fn get(&self, name: &str) -> (values: Vec<String>)
        ensures
            strings_view(values@) == values_of(self@, name@),
    {
        let wanted = String::from_str(name);
        let mut values: Vec<String> = Vec::new();
        let mut i: usize = 0;
        assert(self@.take(0) =~= Seq::<BindingView>::empty());
        assert(strings_view(values@) =~= Seq::<Seq<char>>::empty());
        while i < self.bindings.len()
            invariant
                i <= self.bindings@.len(),
                self.bindings@.len() == self@.len(),
                wanted@ == name@,
                strings_view(values@) == values_of(self@.take(i as int), name@),
            decreases self.bindings@.len() - i,
        {
            let binding = &self.bindings[i];
            let ghost before = strings_view(values@);
            proof {
                assert(self@.take(i + 1).drop_last() =~= self@.take(i as int));
                assert(self@.take(i + 1).last() == binding@);
            }
            if binding.name == wanted {
                let value = binding.value.clone();
                values.push(value);
                assert(strings_view(values@) =~= before.push(binding@.value));
            }
            i = i + 1;
        }
        assert(self@.take(i as int) =~= self@);
        values
    }
}

/// Where a walk through the tree has ended.
pub struct NodeMatch<'a, H> {
    /// The node whose routes are candidates for the request.
    pub node: &'a NodeBuilder<H>,
    /// The dynamic segments passed on the way.
    pub mapping: SegmentMapping,
    /// How many segments the walk has used up.
    pub consumed: usize,
}

impl<'a, H> View for NodeMatch<'a, H> {
    type V = PathMatch<H>;

    open spec fn view(&self) -> PathMatch<H> {
        PathMatch { node: self.node@, bindings: self.mapping@, consumed: self.consumed as nat }
    }
}

impl<H> NodeBuilder<H> {
    /// The position of the first dynamic child, if there is one.
    fn find_dynamic_child(&self) -> (found: Option<usize>)
        ensures
            found is Some <==> self@.dynamic_child() is Some,
            found matches Some(i) ==> self@.dynamic_child() == Some(i as int) && i
                < self@.children.len(),
    {
        let mut i: usize = 0;
        while i < self.children.len()
            invariant
                i <= self.children@.len(),
                self.children@.len() == self@.children.len(),
                self@.dynamic_child() == self@.dynamic_child_from(i as int),
            decreases self.children@.len() - i,
        {
            let candidate = &self.children[i];
            assert(self@.children[i as int] == candidate@);
            if candidate.segment_type == SegmentType::Dynamic {
                return Some(i);
            }
            i = i + 1;
        }
        None
    }

    /// Whether one of the node's routes hands requests on to a nested
    /// router.
    pub fn is_delegating(&self) -> (delegating: bool)
        ensures
            delegating == self@.delegates(),
    {
        let mut i: usize = 0;
        while i < self.routes.len()
            invariant
                i <= self.routes@.len(),
                self.routes@.len() == self@.routes.len(),
                forall|j: int| 0 <= j < i ==> (#[trigger] self@.routes[j]).delegation()
                    != Delegation::External,
            decreases self.routes@.len() - i,
        {
            assert(self@.routes[i as int] == self.routes@[i as int]@);
            if self.routes[i].delegation() == Delegation::External {
                return true;
            }
            i = i + 1;
        }
        false
    }

    /// The number of routes registered at this node.
    pub fn route_count(&self) -> (n: usize)
        ensures
            n == self@.routes.len(),
    {
        self.routes.len()
    }

    /// The route registered at position `i`.
    pub fn route(&self, i: usize) -> (route: &Route<H>)
        requires
            i < self@.routes.len(),
        ensures
            route@ == self@.routes[i as int],
    {
        &self.routes[i]
    }

    /// Walks from this node along the segments from position `from` on.
    pub fn traverse<'a>(&'a self, segments: &Vec<String>, from: usize) -> (found: Option<
        NodeMatch<'a, H>,
    >)
        requires
            from <= segments@.len(),
        ensures
            found is Some <==> self@.match_path(strings_view(segments@).skip(from as int)) is Some,
            found matches Some(m) ==> m@ == self@.match_path(
                strings_view(segments@).skip(from as int),
            )->0 && m.consumed <= segments@.len() - from,
        decreases segments@.len() - from,
    {
        let ghost rest = strings_view(segments@).skip(from as int);
        if from == segments.len() {
            if self.routes.len() > 0 {
                Some(NodeMatch { node: self, mapping: SegmentMapping::new(), consumed: 0 })
            } else {
                None
            }
        } else {
            let segment: &str = segments[from].as_str();
            proof {
                assert(rest[0] == segment@);
                assert(rest.skip(1) =~= strings_view(segments@).skip(from + 1));
            }
            match self.find_child(segment, SegmentType::Static) {
                Some(i) => {
                    assert(self@.children[i as int] == self.children@[i as int]@);
                    match self.children[i].traverse(segments, from + 1) {
                        Some(m) => {
                            return Some(
                                NodeMatch {
                                    node: m.node,
                                    mapping: m.mapping,
                                    consumed: m.consumed + 1,
                                },
                            );
                        },
                        None => {},
                    }
                },
                None => {},
            }
            match self.find_dynamic_child() {
                Some(j) => {
                    let child = &self.children[j];
                    assert(self@.children[j as int] == child@);
                    match child.traverse(segments, from + 1) {
                        Some(m) => {
                            let mut mapping = m.mapping;
                            mapping.bind_first(child.segment.clone(), segments[from].clone());
                            return Some(
                                NodeMatch { node: m.node, mapping, consumed: m.consumed + 1 },
                            );
                        },
                        None => {},
                    }
                },
                None => {},
            }
            if self.is_delegating() {
                Some(NodeMatch { node: self, mapping: SegmentMapping::new(), consumed: 0 })
            } else {
                None
            }
        }
    }

    /// Whether the pipeline chain of every route in this tree refers only to
    /// the first `pipelines` pipelines of a set.
    pub fn has_known_chains(&self, pipelines: usize) -> (ok: bool)
        ensures
            ok == self@.chains_known(pipelines as nat),
        decreases self,
    {
        let mut i: usize = 0;
        while i < self.routes.len()
            invariant
                i <= self.routes@.len(),
                self.routes@.len() == self@.routes.len(),
                forall|k: int|
                    0 <= k < i ==> chain_within(
                        (#[trigger] self@.routes[k]).pipeline_chain,
                        pipelines as nat,
                    ),
            decreases self.routes@.len() - i,
        {
            let chain = &self.routes[i].pipeline_chain;
            assert(self@.routes[i as int].pipeline_chain == chain@);
            let mut j: usize = 0;
            while j < chain.len()
                invariant
                    j <= chain@.len(),
                    i < self@.routes.len(),
                    self@.routes[i as int].pipeline_chain == chain@,
                    forall|k: int| 0 <= k < j ==> (#[trigger] chain@[k]).index < pipelines,
                decreases chain@.len() - j,
            {
                if chain[j].index >= pipelines {
                    assert(!chain_within(self@.routes[i as int].pipeline_chain, pipelines as nat));
                    return false;
                }
                j = j + 1;
            }
            i = i + 1;
        }
        let mut c: usize = 0;
        while c < self.children.len()
            invariant
                c <= self.children@.len(),
                self.children@.len() == self@.children.len(),
                forall|k: int|
                    0 <= k < self@.routes.len() ==> chain_within(
                        (#[trigger] self@.routes[k]).pipeline_chain,
                        pipelines as nat,
                    ),
                forall|k: int|
                    0 <= k < c ==> (#[trigger] self@.children[k]).chains_known(pipelines as nat),
            decreases self.children@.len() - c,
        {
            let child = &self.children[c];
            assert(self@.children[c as int] == child@);
            if !child.has_known_chains(pipelines) {
                return false;
            }
            c = c + 1;
        }
        true
    }

    /// Whether every node of this tree has at most one dynamic child.
    pub fn is_well_formed(&self) -> (ok: bool)
        ensures
            ok == self@.well_formed(),
        decreases self,
    {
        let mut dynamic: usize = 0;
        let mut i: usize = 0;
        while i < self.children.len()
            invariant
                i <= self.children@.len(),
                self.children@.len() == self@.children.len(),
                dynamic == self@.dynamic_children(i as int),
                dynamic <= i,
                forall|j: int| 0 <= j < i ==> (#[trigger] self@.children[j]).well_formed(),
            decreases self.children@.len() - i,
        {
            let child = &self.children[i];
            assert(self@.children[i as int] == child@);
            if !child.is_well_formed() {
                return false;
            }
            if child.segment_type == SegmentType::Dynamic {
                dynamic = dynamic + 1;
            }
            i = i + 1;
        }
        dynamic <= 1
    }
}

/// The tree under construction: its root stands for the empty path.
pub struct TreeBuilder<H> {
    root: NodeBuilder<H>,
}

impl<H> View for TreeBuilder<H> {
    type V = NodeView<H>;

    closed spec fn view(&self) -> NodeView<H> {
        self.root@
    }
}

/// The root of a tree into which nothing has been drawn yet.
pub open spec fn empty_tree<H>() -> NodeView<H> {
    NodeView::fresh(SegmentKey { name: seq!['/'], kind: SegmentType::Static })
}

impl<H> TreeBuilder<H> {
    /// A tree that holds nothing but its root.
    pub fn new() -> (builder: Self)
        ensures
            builder@ == empty_tree::<H>(),
    {
        proof {
            reveal_strlit("/");
            assert("/"@ =~= seq!['/']);
        }
        TreeBuilder { root: NodeBuilder::new("/", SegmentType::Static) }
    }

    /// The root, to be changed in place.
    pub fn borrow_root_mut(&mut self) -> (root: &mut NodeBuilder<H>)
        ensures
            root@ == old(self)@,
            final(self)@ == final(root)@,
    {
        &mut self.root
    }

    /// Whether the pipeline chain of every route drawn so far refers only to
    /// the first `pipelines` pipelines of a set.
    pub fn has_known_chains(&self, pipelines: usize) -> (ok: bool)
        ensures
            ok == self@.chains_known(pipelines as nat),
    {
        self.root.has_known_chains(pipelines)
    }

    /// Freezes the tree. This fails if and only if some node has more than
    /// one dynamic child.
    pub fn finalize(self) -> (result: Result<Tree<H>, BuildError>)
        ensures
            result is Ok <==> self@.well_formed(),
            result matches Ok(tree) ==> tree@ == self@,
            result matches Err(e) ==> e == BuildError::ConflictingDynamicSegments,
    {
        if self.root.is_well_formed() {
            Ok(Tree { root: self.root })
        } else {
            Err(BuildError::ConflictingDynamicSegments)
        }
    }
}

/// The frozen tree, in which request paths are looked up.
pub struct Tree<H> {
    root: NodeBuilder<H>,
}

impl<H> View for Tree<H> {
    type V = NodeView<H>;

    closed spec fn view(&self) -> NodeView<H> {
        self.root@
    }
}

impl<H> Tree<H> {
    #[verifier::type_invariant]
    spec fn single_dynamic_children(self) -> bool {
        self.root@.well_formed()
    }

    /// The root of the tree. In a frozen tree every node has at most one
    /// dynamic child.
    pub fn root(&self) -> (root: &NodeBuilder<H>)
        ensures
            root@ == self@,
            self@.well_formed(),
    {
        proof {
            use_type_invariant(self);
        }
        &self.root
    }

    /// Walks from the root along the segments from position `from` on.
    pub fn match_path<'a>(&'a self, segments: &Vec<String>, from: usize) -> (found: Option<
        NodeMatch<'a, H>,
    >)
        requires
            from <= segments@.len(),
        ensures
            found is Some <==> self@.match_path(strings_view(segments@).skip(from as int)) is Some,
            found matches Some(m) ==> m@ == self@.match_path(
                strings_view(segments@).skip(from as int),
            )->0 && m.consumed <= segments@.len() - from,
    {
        self.root.traverse(segments, from)
    }
}

/// Whether every handle of the chain refers to one of the first `pipelines`
/// pipelines of a set.
pub open spec fn chain_within(chain: Seq<PipelineHandle>, pipelines: nat) -> bool {
    forall|j: int| 0 <= j < chain.len() ==> (#[trigger] chain[j]).index < pipelines
}

impl<H> NodeView<H> {
    /// Whether the pipeline chain of every route in this tree refers only to
    /// the first `pipelines` pipelines of a set.
    pub open spec fn chains_known(self, pipelines: nat) -> bool
        decreases self,
    {
        &&& forall|i: int|
            0 <= i < self.routes.len() ==> chain_within(
                (#[trigger] self.routes[i]).pipeline_chain,
                pipelines,
            )
        &&& forall|i: int|
            0 <= i < self.children.len() ==> (#[trigger] self.children[i]).chains_known(pipelines)
    }
}

/// Whether none of the keys is dynamic.
pub open spec fn all_static(keys: Seq<SegmentKey>) -> bool {
    forall|i: int| 0 <= i < keys.len() ==> (#[trigger] keys[i]).kind == SegmentType::Static
}

/// The names of the keys, in order.
pub open spec fn key_names(keys: Seq<SegmentKey>) -> Seq<Seq<char>> {
    Seq::new(keys.len(), |i: int| keys[i].name)
}

impl<H> NodeView<H> {
    /// This tree with `route` registered at the node that `keys` lead to.
    pub open spec fn register(self, keys: Seq<SegmentKey>, route: RouteView<H>) -> Self {
        self.graft(keys, self.descend(keys).with_route(route))
    }

    /// After a node without a child for some key gets a child with that key,
    /// the new child is the one found under the key, at the last position.
    pub proof fn lemma_child_after_push(self, child: NodeView<H>)
        requires
            self.child(child.key()) is None,
        ensures
            self.with_child(child).child(child.key()) == Some(self.children.len() as int),
    {
        self.lemma_child_from_after_push(child, 0);
    }

    proof fn lemma_child_from_after_push(self, child: NodeView<H>, from: int)
        requires
            0 <= from <= self.children.len(),
            self.child_from(child.key(), from) is None,
        ensures
            self.with_child(child).child_from(child.key(), from) == Some(
                self.children.len() as int,
            ),
        decreases self.children.len() - from,
    {
        if from < self.children.len() {
            self.lemma_child_from_after_push(child, from + 1);
        }
    }

    /// A child found under a key is within the children and has the key.
    pub proof fn lemma_child_found(self, key: SegmentKey, from: int)
        requires
            self.child_from(key, from) is Some,
        ensures
            from <= self.child_from(key, from)->0 < self.children.len(),
            self.children[self.child_from(key, from)->0].key() == key,
        decreases self.children.len() - from,
    {
        if self.children[from].key() != key {
            self.lemma_child_found(key, from + 1);
        }
    }

    /// Replacing a child by a node with the same key changes no search for a
    /// child.
    pub proof fn lemma_child_after_replace(self, i: int, child: NodeView<H>, key: SegmentKey, from: int)
        requires
            0 <= i < self.children.len(),
            child.key() == self.children[i].key(),
        ensures
            self.with_child_at(i, child).child_from(key, from) == self.child_from(key, from),
        decreases self.children.len() - from,
    {
        if 0 <= from < self.children.len() {
            self.lemma_child_after_replace(i, child, key, from + 1);
        }
    }

    /// Grafting keeps the key of the root, provided the leaf has the key of
    /// the node that it replaces.
    pub proof fn lemma_graft_keeps_key(self, keys: Seq<SegmentKey>, leaf: NodeView<H>)
        requires
            leaf.key() == self.descend(keys).key(),
        ensures
            self.graft(keys, leaf).key() == self.key(),
    {
    }

    /// A route registered for a path of static segments is found by a walk
    /// along the text of those segments: the walk ends in the node at which
    /// the route was registered, where the route is the last one, and it has
    /// used up every segment and bound nothing.
    pub proof fn law_static_path_leads_to_route(self, keys: Seq<SegmentKey>, route: RouteView<H>)
        requires
            all_static(keys),
        ensures
            self.register(keys, route).match_path(key_names(keys)) == Some(
                PathMatch {
                    node: self.descend(keys).with_route(route),
                    bindings: Seq::empty(),
                    consumed: keys.len(),
                },
            ),
    {
        self.lemma_registered(keys, route);
        self.register(keys, route).law_static_path_matches(keys);
    }
}

impl<H> NodeView<H> {
    /// Whether every node that `keys` lead through exists in this tree.
    pub open spec fn holds(self, keys: Seq<SegmentKey>) -> bool
        decreases keys.len(),
    {
        if keys.len() == 0 {
            true
        } else {
            match self.child(keys[0]) {
                Some(i) => self.children[i].holds(keys.skip(1)),
                None => false,
            }
        }
    }

    /// After grafting, the keys lead through existing nodes to the leaf.
    pub proof fn lemma_descend_grafted(self, keys: Seq<SegmentKey>, leaf: NodeView<H>)
        requires
            leaf.key() == self.descend(keys).key(),
        ensures
            self.graft(keys, leaf).holds(keys),
            self.graft(keys, leaf).descend(keys) == leaf,
        decreases keys.len(),
    {
        if keys.len() > 0 {
            let key = keys[0];
            let rest = keys.skip(1);
            let grafted = self.graft(keys, leaf);
            match self.child(key) {
                Some(i) => {
                    self.lemma_child_found(key, 0);
                    let below = self.children[i].graft(rest, leaf);
                    self.children[i].lemma_graft_keeps_key(rest, leaf);
                    self.lemma_child_after_replace(i, below, key, 0);
                    self.children[i].lemma_descend_grafted(rest, leaf);
                    assert(grafted.children[i] == below);
                },
                None => {
                    let start = Self::fresh(key);
                    let below = start.graft(rest, leaf);
                    start.lemma_graft_keeps_key(rest, leaf);
                    self.lemma_child_after_push(below);
                    start.lemma_descend_grafted(rest, leaf);
                    assert(grafted.children[self.children.len() as int] == below);
                },
            }
        }
    }

    /// Once a route is registered under `keys`, the keys lead through
    /// existing nodes to a node that has the route as its last.
    pub proof fn lemma_registered(self, keys: Seq<SegmentKey>, route: RouteView<H>)
        ensures
            self.register(keys, route).holds(keys),
            self.register(keys, route).descend(keys) == self.descend(keys).with_route(route),
    {
        self.lemma_descend_grafted(keys, self.descend(keys).with_route(route));
    }

    /// In any tree, a walk along the text of static keys that lead through
    /// existing nodes to a node with a route ends in that node, has used up
    /// every segment and has bound nothing.
    pub proof fn law_static_path_matches(self, keys: Seq<SegmentKey>)
        requires
            all_static(keys),
            self.holds(keys),
            self.descend(keys).routes.len() > 0,
        ensures
            self.match_path(key_names(keys)) == Some(
                PathMatch {
                    node: self.descend(keys),
                    bindings: Seq::empty(),
                    consumed: keys.len(),
                },
            ),
        decreases keys.len(),
    {
        if keys.len() > 0 {
            let key = keys[0];
            let rest = keys.skip(1);
            assert(key_names(keys).skip(1) =~= key_names(rest));
            assert(key == (SegmentKey { name: key_names(keys)[0], kind: SegmentType::Static }));
            assert(all_static(rest)) by {
                assert forall|i: int| 0 <= i < rest.len() implies (#[trigger] rest[i]).kind
                    == SegmentType::Static by {
                    assert(rest[i] == keys[i + 1]);
                }
            }
            let i = self.child(key)->0;
            self.children[i].law_static_path_matches(rest);
        }
    }
}

impl<H> NodeView<H> {
    /// A child with another key, added at the end, changes no search.
    pub proof fn lemma_child_after_push_other(self, child: NodeView<H>, key: SegmentKey, from: int)
        requires
            child.key() != key,
        ensures
            self.with_child(child).child_from(key, from) == self.child_from(key, from),
        decreases self.children.len() + 1 - from,
    {
        if 0 <= from < self.children.len() {
            self.lemma_child_after_push_other(child, key, from + 1);
        } else if from == self.children.len() {
            assert(self.with_child(child).child_from(key, from + 1) is None);
        }
    }

    /// The count of dynamic children grows with the range counted, and
    /// counts each dynamic child in the range.
    proof fn lemma_dynamic_count(self, j: int, upto: int)
        requires
            0 <= j < upto <= self.children.len(),
        ensures
            self.dynamic_children(j) <= self.dynamic_children(upto),
            self.children[j].segment_type == SegmentType::Dynamic ==> self.dynamic_children(j)
                < self.dynamic_children(upto),
        decreases upto,
    {
        if j + 1 < upto {
            self.lemma_dynamic_count(j, upto - 1);
        }
    }

    /// The first dynamic child at or after `from` comes no later than any
    /// dynamic child at or after `from`.
    proof fn lemma_first_dynamic(self, i: int, from: int)
        requires
            0 <= from <= i < self.children.len(),
            self.children[i].segment_type == SegmentType::Dynamic,
        ensures
            self.dynamic_child_from(from) is Some,
            from <= self.dynamic_child_from(from)->0 <= i,
            self.children[self.dynamic_child_from(from)->0].segment_type == SegmentType::Dynamic,
        decreases i - from,
    {
        if self.children[from].segment_type != SegmentType::Dynamic {
            self.lemma_first_dynamic(i, from + 1);
        }
    }

    /// Where a node has at most one dynamic child, that child is the first.
    pub proof fn lemma_single_dynamic(self, i: int)
        requires
            self.dynamic_children(self.children.len() as int) <= 1,
            0 <= i < self.children.len(),
            self.children[i].segment_type == SegmentType::Dynamic,
        ensures
            self.dynamic_child() == Some(i),
    {
        self.lemma_first_dynamic(i, 0);
        let j = self.dynamic_child()->0;
        if j < i {
            self.lemma_dynamic_count(j, i);
            self.lemma_dynamic_count(i, self.children.len() as int);
        }
    }

    /// After a route is registered under a dynamic segment `name`, a request
    /// with the single segment `value` is led to that route's node with
    /// `name` bound to `value`, unless a static child for `value` that has
    /// routes comes first.
    pub proof fn law_dynamic_segment_binds(
        self,
        name: Seq<char>,
        value: Seq<char>,
        route: RouteView<H>,
    )
        requires
            self.register(seq![SegmentKey { name, kind: SegmentType::Dynamic }], route).well_formed(),
            self.static_child(value) matches Some(i) ==> self.children[i].routes.len() == 0,
        ensures
            ({
                let keys = seq![SegmentKey { name, kind: SegmentType::Dynamic }];
                self.register(keys, route).match_path(seq![value]) == Some(
                    PathMatch {
                        node: self.descend(keys).with_route(route),
                        bindings: seq![BindingView { name, value }],
                        consumed: 1,
                    },
                )
            }),
    {
        let key = SegmentKey { name, kind: SegmentType::Dynamic };
        let keys = seq![key];
        let after = self.register(keys, route);
        let leaf = self.descend(keys).with_route(route);
        let literal = SegmentKey { name: value, kind: SegmentType::Static };
        let rest = seq![value].skip(1);
        reveal_with_fuel(NodeView::descend, 2);
        reveal_with_fuel(NodeView::graft, 2);
        reveal_with_fuel(NodeView::match_path, 2);
        assert(keys[0] == key);
        assert(keys.skip(1).len() == 0);
        assert(rest.len() == 0);
        let at: int = match self.child(key) {
            Some(i) => {
                self.lemma_child_found(key, 0);
                self.lemma_child_after_replace(i, leaf, literal, 0);
                i
            },
            None => {
                self.lemma_child_after_push_other(leaf, literal, 0);
                self.children.len() as int
            },
        };
        assert(after.children[at] == leaf);
        after.lemma_single_dynamic(at);
        match self.static_child(value) {
            Some(s) => {
                self.lemma_child_found(literal, 0);
                assert(after.children[s] == self.children[s]);
                assert(after.children[s].match_path(rest) is None);
            },
            None => {},
        }
        assert(leaf.match_path(rest) == Some(PathMatch::here(leaf)));
        assert(PathMatch::here(leaf).through_dynamic(name, value).bindings =~= seq![
            BindingView { name, value },
        ]);
    }
}

impl<H> NodeView<H> {
    /// A walk uses up no more segments than there are.
    pub proof fn law_walk_stays_within_path(self, segments: Seq<Seq<char>>)
        requires
            self.match_path(segments) is Some,
        ensures
            self.match_path(segments)->0.consumed <= segments.len(),
        decreases segments.len(),
    {
        if segments.len() > 0 {
            let rest = segments.skip(1);
            match self.static_child(segments[0]) {
                Some(i) => {
                    if self.children[i].match_path(rest) is Some {
                        self.children[i].law_walk_stays_within_path(rest);
                    }
                },
                None => {},
            }
            match self.dynamic_child() {
                Some(j) => {
                    if self.children[j].match_path(rest) is Some {
                        self.children[j].law_walk_stays_within_path(rest);
                    }
                },
                None => {},
            }
        }
    }
}

impl<H> NodeView<H> {
    /// Two different keys are found at different positions.
    proof fn lemma_children_apart(self, first: SegmentKey, second: SegmentKey)
        requires
            self.child(first) is Some,
            self.child(second) is Some,
            first != second,
        ensures
            self.child(first)->0 != self.child(second)->0,
    {
        self.lemma_child_found(first, 0);
        self.lemma_child_found(second, 0);
    }

    /// The search for a child looks at the children only.
    proof fn lemma_child_by_children(self, other: NodeView<H>, key: SegmentKey, from: int)
        requires
            self.children == other.children,
        ensures
            self.child_from(key, from) == other.child_from(key, from),
        decreases self.children.len() - from,
    {
        if 0 <= from < self.children.len() {
            self.lemma_child_by_children(other, key, from + 1);
        }
    }

    /// Putting a leaf in the place that `other` leads to, with the key and
    /// the children of the node that was there, changes nothing for the
    /// keys that led through existing nodes before: they still do, and to
    /// the same routes, unless they lead to the leaf itself.
    pub proof fn lemma_graft_keeps_routes(
        self,
        keys: Seq<SegmentKey>,
        other: Seq<SegmentKey>,
        leaf: NodeView<H>,
    )
        requires
            self.holds(keys),
            leaf.key() == self.descend(other).key(),
            leaf.children == self.descend(other).children,
        ensures
            self.graft(other, leaf).holds(keys),
            self.graft(other, leaf).descend(keys).routes == if keys == other {
                leaf.routes
            } else {
                self.descend(keys).routes
            },
        decreases keys.len() + other.len(),
    {
        let grafted = self.graft(other, leaf);
        if other.len() == 0 {
            if keys.len() == 0 {
                assert(keys =~= other);
            } else {
                leaf.lemma_child_by_children(self, keys[0], 0);
            }
        } else if keys.len() == 0 {
            assert(grafted.routes == self.routes);
        } else {
            let at = self.child(keys[0])->0;
            self.lemma_child_found(keys[0], 0);
            match self.child(other[0]) {
                Some(i) => {
                    self.lemma_child_found(other[0], 0);
                    let below = self.children[i].graft(other.skip(1), leaf);
                    self.children[i].lemma_graft_keeps_key(other.skip(1), leaf);
                    self.lemma_child_after_replace(i, below, keys[0], 0);
                    assert(grafted.children[i] == below);
                    assert(grafted.child(keys[0]) == Some(at));
                    if keys[0] == other[0] {
                        self.children[i].lemma_graft_keeps_routes(
                            keys.skip(1),
                            other.skip(1),
                            leaf,
                        );
                        if keys.skip(1) == other.skip(1) {
                            assert forall|n: int| 0 <= n < keys.len() implies keys[n]
                                == other[n] by {
                                if n > 0 {
                                    assert(keys[n] == keys.skip(1)[n - 1]);
                                    assert(other[n] == other.skip(1)[n - 1]);
                                }
                            }
                            assert(keys.len() == keys.skip(1).len() + 1);
                            assert(other.len() == other.skip(1).len() + 1);
                            assert(keys =~= other);
                        }
                    } else {
                        self.lemma_children_apart(keys[0], other[0]);
                        assert(grafted.children[at] == self.children[at]);
                    }
                },
                None => {
                    let start = Self::fresh(other[0]);
                    let below = start.graft(other.skip(1), leaf);
                    start.lemma_graft_keeps_key(other.skip(1), leaf);
                    self.lemma_child_after_push_other(below, keys[0], 0);
                    assert(grafted.child(keys[0]) == Some(at));
                    assert(grafted.children[at] == self.children[at]);
                },
            }
        }
    }

    /// Registering a route disturbs no route registered before: the nodes
    /// that `keys` lead through are still there, and the node they lead to
    /// has the routes it had, followed by the new route if that was
    /// registered under the same keys.
    pub proof fn law_registration_keeps_routes(
        self,
        keys: Seq<SegmentKey>,
        other: Seq<SegmentKey>,
        route: RouteView<H>,
    )
        requires
            self.holds(keys),
        ensures
            self.register(other, route).holds(keys),
            self.register(other, route).descend(keys).routes == if keys == other {
                self.descend(keys).routes.push(route)
            } else {
                self.descend(keys).routes
            },
    {
        self.lemma_graft_keeps_routes(keys, other, self.descend(other).with_route(route));
    }
}

impl<H> NodeView<H> {
    /// Walking along one list of keys and then along another is walking
    /// along the two lists joined.
    pub proof fn law_descend_composes(self, first: Seq<SegmentKey>, second: Seq<SegmentKey>)
        ensures
            self.descend(first + second) == self.descend(first).descend(second),
        decreases first.len(),
    {
        if first.len() == 0 {
            assert(first + second =~= second);
        } else {
            assert((first + second).skip(1) =~= first.skip(1) + second);
            assert((first + second)[0] == first[0]);
            match self.child(first[0]) {
                Some(i) => {
                    self.children[i].law_descend_composes(first.skip(1), second);
                },
                None => {
                    Self::fresh(first[0]).law_descend_composes(first.skip(1), second);
                },
            }
        }
    }

    /// Grafting below a prefix is grafting, in the place of the prefix, the
    /// node found there with the graft made below it.
    pub proof fn law_graft_composes(
        self,
        first: Seq<SegmentKey>,
        second: Seq<SegmentKey>,
        leaf: NodeView<H>,
    )
        ensures
            self.graft(first + second, leaf) == self.graft(
                first,
                self.descend(first).graft(second, leaf),
            ),
        decreases first.len(),
    {
        if first.len() == 0 {
            assert(first + second =~= second);
        } else {
            assert((first + second).skip(1) =~= first.skip(1) + second);
            assert((first + second)[0] == first[0]);
            match self.child(first[0]) {
                Some(i) => {
                    self.children[i].law_graft_composes(first.skip(1), second, leaf);
                },
                None => {
                    Self::fresh(first[0]).law_graft_composes(first.skip(1), second, leaf);
                },
            }
        }
    }

    /// A route registered below a prefix, seen from the node that the prefix
    /// leads to, is the route registered under the prefix and the rest
    /// joined, seen from here. So a route drawn through a scope, or through
    /// scopes within scopes, lies where the joined path puts it.
    pub proof fn law_register_composes(
        self,
        first: Seq<SegmentKey>,
        second: Seq<SegmentKey>,
        route: RouteView<H>,
    )
        ensures
            self.register(first + second, route) == self.graft(
                first,
                self.descend(first).register(second, route),
            ),
    {
        self.law_descend_composes(first, second);
        self.law_graft_composes(first, second, self.descend(first + second).with_route(route));
    }

    /// Walking to a node, creating what is missing on the way, and putting
    /// the node back as it was found changes nothing for the keys that led
    /// through existing nodes before: they still do, and to the same
    /// routes.
    pub proof fn law_descent_keeps_routes(self, keys: Seq<SegmentKey>, other: Seq<SegmentKey>)
        requires
            self.holds(keys),
        ensures
            self.graft(other, self.descend(other)).holds(keys),
            self.graft(other, self.descend(other)).descend(keys).routes == self.descend(
                keys,
            ).routes,
    {
        self.lemma_graft_keeps_routes(keys, other, self.descend(other));
    }
}

} // verus!

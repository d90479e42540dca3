//! Drawing routes into a segment tree.

use vstd::prelude::*;
use vstd::string::*;
use crate::path::{
    law_split_of_joined, lemma_split_without_separator, request_segments, route_segments, split_route_path,
    strings_view, strip_leading_slash, strip_trailing_slash,
};
use crate::pipeline::{PipelineHandle, PipelineSet};
use crate::response::ResponseFinalizerBuilder;
use crate::router::{accepts, law_first_registered_wins, ResolutionView, Router, RouterView};
use crate::route::{
    ExtractorId, Extractors, Method, MethodOnlyRouteMatcher, Route, RouteTarget, RouteView,
};
use crate::tree::{
    empty_tree, key_names, route_key, route_keys, BindingView, BuildError,
    NodeBuilder, NodeView, SegmentKey, SegmentType, TreeBuilder,
};

verus! {

/// The keys that the path of a route definition leads through.
pub open spec fn path_keys(path: Seq<char>) -> Seq<SegmentKey> {
    route_keys(route_segments(path), 0)
}

/// Walks from `node` along the segments from position `from` on, creating
/// the nodes that are missing, and returns the node that the walk ends in.
pub fn build_subtree<'n, H>(
    node: &'n mut NodeBuilder<H>,
    segments: &Vec<String>,
    from: usize,
) -> (reached: &'n mut NodeBuilder<H>)
    requires
        from <= segments@.len(),
    ensures
        reached@ == old(node)@.descend(route_keys(strings_view(segments@), from as int)),
        final(node)@ == old(node)@.graft(
            route_keys(strings_view(segments@), from as int),
            final(reached)@,
        ),
    decreases segments@.len() - from,
{
    let ghost keys = route_keys(strings_view(segments@), from as int);
    if from < segments.len() {
        let segment: &str = segments[from].as_str();
        let n = segment.unicode_len();
        let dynamic = n > 0 && segment.get_char(0) == ':';
        let (name, segment_type) = if dynamic {
            (segment.substring_char(1, n), SegmentType::Dynamic)
        } else {
            (segment, SegmentType::Static)
        };
        proof {
            assert(segment@.subrange(1, n as int) =~= segment@.skip(1)) by {
                if dynamic {
                }
            }
            assert(keys[0] == route_key(segment@));
            assert(keys[0] == (SegmentKey { name: name@, kind: segment_type }));
            assert(keys.skip(1) =~= route_keys(strings_view(segments@), from + 1));
        }
        if !node.has_child(name, segment_type) {
            let child = NodeBuilder::new(name, segment_type);
            proof {
                node@.lemma_child_after_push(child@);
            }
            node.add_child(child);
        }
        proof {
            let before = *old(node);
            let now = node@;
            let i = now.child(keys[0])->0;
            assert forall|leaf: NodeView<H>| #[trigger]
                before@.graft(keys, leaf) == now.with_child_at(
                    i,
                    now.children[i].graft(keys.skip(1), leaf),
                ) by {
                if before@.child(keys[0]) is None {
                    assert(now.children[i] == NodeView::<H>::fresh(keys[0]));
                    assert(now.with_child_at(i, now.children[i].graft(keys.skip(1), leaf)).children
                        =~= before@.children.push(
                        NodeView::<H>::fresh(keys[0]).graft(keys.skip(1), leaf),
                    ));
                }
            }
        }
        let child = node.borrow_mut_child(name, segment_type);
        build_subtree(child, segments, from + 1)
    } else {
        assert(keys.len() == 0);
        node
    }
}

/// Walks from `node_builder` to the node that `path` names, creating the
/// nodes that are missing on the way.
pub fn descend<'n, H>(node_builder: &'n mut NodeBuilder<H>, path: &str) -> (reached:
    &'n mut NodeBuilder<H>)
    ensures
        reached@ == old(node_builder)@.descend(path_keys(path@)),
        final(node_builder)@ == old(node_builder)@.graft(path_keys(path@), final(reached)@),
{
    let segments = split_route_path(path);
    if segments.len() == 0 {
        assert(path_keys(path@).len() == 0);
        node_builder
    } else {
        build_subtree(node_builder, &segments, 0)
    }
}

/// Copies a pipeline chain.
fn copy_chain(chain: &Vec<PipelineHandle>) -> (copy: Vec<PipelineHandle>)
    ensures
        copy@ == chain@,
{
    let mut copy: Vec<PipelineHandle> = Vec::new();
    let mut i: usize = 0;
    while i < chain.len()
        invariant
            i <= chain@.len(),
            copy@ == chain@.take(i as int),
        decreases chain@.len() - i,
    {
        copy.push(chain[i]);
        assert(copy@ =~= chain@.take(i + 1));
        i = i + 1;
    }
    assert(chain@.take(i as int) =~= chain@);
    copy
}

/// Defines one route at the node it was created for.
pub struct SingleRouteBuilder<'a, H> {
    pub node_builder: &'a mut NodeBuilder<H>,
    pub matcher: MethodOnlyRouteMatcher,
    pub pipeline_chain: Vec<PipelineHandle>,
    pub extractors: Extractors,
}

impl<'a, H> SingleRouteBuilder<'a, H> {
    /// The route that this builder registers once it is given `handler`.
    pub open spec fn route_to(self, handler: H) -> RouteView<H> {
        RouteView {
            methods: self.matcher@,
            pipeline_chain: self.pipeline_chain@,
            extractors: self.extractors,
            target: RouteTarget::Handler(handler),
        }
    }

    /// Directs the route to `handler` and registers it at its node, after the
    /// routes that the node already has.
    pub fn to(self, handler: H)
        ensures
            final(self.node_builder)@ == old(self.node_builder)@.with_route(self.route_to(handler)),
    {
        self.to_new_handler(handler)
    }

    /// Directs the route to `new_handler` and registers it at its node, after
    /// the routes that the node already has.
    pub fn to_new_handler(self, new_handler: H)
        ensures
            final(self.node_builder)@ == old(self.node_builder)@.with_route(
                self.route_to(new_handler),
            ),
    {
        let route = Route::new(
            self.matcher,
            self.pipeline_chain,
            self.extractors,
            RouteTarget::Handler(new_handler),
        );
        self.node_builder.add_route(route);
    }

    /// Declares the extractor that reads the bindings taken from the path.
    pub fn with_path_extractor(self, extractor: ExtractorId) -> (builder: SingleRouteBuilder<'a, H>)
        ensures
            builder.matcher == self.matcher,
            builder.pipeline_chain == self.pipeline_chain,
            builder.extractors == (Extractors { path: Some(extractor), ..self.extractors }),
            *builder.node_builder == *old(self.node_builder),
            *final(self.node_builder) == *final(builder.node_builder),
    {
        let extractors = Extractors { path: Some(extractor), ..self.extractors };
        self.coerce(extractors)
    }

    /// Declares the extractor that reads the query string.
    pub fn with_query_string_extractor(self, extractor: ExtractorId) -> (builder:
        SingleRouteBuilder<'a, H>)
        ensures
            builder.matcher == self.matcher,
            builder.pipeline_chain == self.pipeline_chain,
            builder.extractors == (Extractors { query_string: Some(extractor), ..self.extractors }),
            *builder.node_builder == *old(self.node_builder),
            *final(self.node_builder) == *final(builder.node_builder),
    {
        let extractors = Extractors { query_string: Some(extractor), ..self.extractors };
        self.coerce(extractors)
    }

    /// The same definition with other extractors.
    fn coerce(self, extractors: Extractors) -> (builder: SingleRouteBuilder<'a, H>)
        ensures
            builder.matcher == self.matcher,
            builder.pipeline_chain == self.pipeline_chain,
            builder.extractors == extractors,
            *builder.node_builder == *old(self.node_builder),
            *final(self.node_builder) == *final(builder.node_builder),
    {
        SingleRouteBuilder {
            node_builder: self.node_builder,
            matcher: self.matcher,
            pipeline_chain: self.pipeline_chain,
            extractors,
        }
    }
}

/// What every builder that can define routes offers.
pub trait DrawRoutes<H>: Sized {
    /// The node from which this builder draws its routes, with everything
    /// below it.
    spec fn node(&self) -> NodeView<H>;

    /// The pipeline chain that this builder gives to its routes.
    spec fn chain(&self) -> Seq<PipelineHandle>;

    /// Whether `after` agrees with this builder in everything but the node.
    spec fn preserved(&self, after: &Self) -> bool;

    /// The parts of this builder that route definitions work on.
    fn component_refs(&mut self) -> (refs: (&mut NodeBuilder<H>, &Vec<PipelineHandle>))
        ensures
            refs.0@ == old(self).node(),
            refs.1@ == old(self).chain(),
            final(self).node() == final(refs.0)@,
            final(self).chain() == old(self).chain(),
            old(self).preserved(final(self)),
    ;

    /// Begins a route for `GET` and `HEAD` requests to `path`.
    fn get<'b>(&'b mut self, path: &str) -> (route: SingleRouteBuilder<'b, H>)
        ensures
            route.matcher@ == seq![Method::Get, Method::Head],
            route.pipeline_chain@ == old(self).chain(),
            route.extractors == (Extractors { path: None, query_string: None }),
            route.node_builder@ == old(self).node().descend(path_keys(path@)),
            final(self).node() == old(self).node().graft(
                path_keys(path@),
                final(route.node_builder)@,
            ),
            final(self).chain() == old(self).chain(),
            old(self).preserved(final(self)),
    {
        let mut methods: Vec<Method> = Vec::new();
        methods.push(Method::Get);
        methods.push(Method::Head);
        assert(methods@ =~= seq![Method::Get, Method::Head]);
        self.request(methods, path)
    }

    /// Begins a route for `POST` requests to `path`.
    fn post<'b>(&'b mut self, path: &str) -> (route: SingleRouteBuilder<'b, H>)
        ensures
            route.matcher@ == seq![Method::Post],
            route.pipeline_chain@ == old(self).chain(),
            route.extractors == (Extractors { path: None, query_string: None }),
            route.node_builder@ == old(self).node().descend(path_keys(path@)),
            final(self).node() == old(self).node().graft(
                path_keys(path@),
                final(route.node_builder)@,
            ),
            final(self).chain() == old(self).chain(),
            old(self).preserved(final(self)),
    {
        let mut methods: Vec<Method> = Vec::new();
        methods.push(Method::Post);
        assert(methods@ =~= seq![Method::Post]);
        self.request(methods, path)
    }

    /// Begins a route for requests to `path` with one of `methods`. In the
    /// path, a segment that starts with `:` is dynamic; the nodes that the
    /// path leads through are created as far as they are missing.
    fn request<'b>(&'b mut self, methods: Vec<Method>, path: &str) -> (route: SingleRouteBuilder<
        'b,
        H,
    >)
        ensures
            route.matcher@ == methods@,
            route.pipeline_chain@ == old(self).chain(),
            route.extractors == (Extractors { path: None, query_string: None }),
            route.node_builder@ == old(self).node().descend(path_keys(path@)),
            final(self).node() == old(self).node().graft(
                path_keys(path@),
                final(route.node_builder)@,
            ),
            final(self).chain() == old(self).chain(),
            old(self).preserved(final(self)),
    {
        let (node_builder, pipeline_chain) = self.component_refs();
        let node_builder = descend(node_builder, path);
        let matcher = MethodOnlyRouteMatcher::new(methods);
        SingleRouteBuilder {
            matcher,
            node_builder,
            pipeline_chain: copy_chain(pipeline_chain),
            extractors: Extractors::new(),
        }
    }

    /// Begins a scope: a builder that draws below the node that `path` leads
    /// to, with the pipeline chain of this builder.
    fn scope<'b>(&'b mut self, path: &str) -> (scope: ScopeBuilder<'b, H>)
        ensures
            scope.pipeline_chain@ == old(self).chain(),
            scope.node_builder@ == old(self).node().descend(path_keys(path@)),
            final(self).node() == old(self).node().graft(
                path_keys(path@),
                final(scope.node_builder)@,
            ),
            final(self).chain() == old(self).chain(),
            old(self).preserved(final(self)),
    {
        let (node_builder, pipeline_chain) = self.component_refs();
        let node_builder = descend(node_builder, path);
        ScopeBuilder { node_builder, pipeline_chain: copy_chain(pipeline_chain) }
    }
}

/// Defines the routes below one node.
pub struct ScopeBuilder<'a, H> {
    pub node_builder: &'a mut NodeBuilder<H>,
    pub pipeline_chain: Vec<PipelineHandle>,
}

impl<'a, H> DrawRoutes<H> for ScopeBuilder<'a, H> {
    open spec fn node(&self) -> NodeView<H> {
        self.node_builder@
    }

    open spec fn chain(&self) -> Seq<PipelineHandle> {
        self.pipeline_chain@
    }

    open spec fn preserved(&self, after: &Self) -> bool {
        after.pipeline_chain == self.pipeline_chain
    }

    /// The parts of this scope. The scope goes on to stand on the node that
    /// it was begun for: what is written through the reference returned, and
    /// through the scope afterwards, is written to that node.
    fn component_refs(&mut self) -> (refs: (&mut NodeBuilder<H>, &Vec<PipelineHandle>))
        ensures
            *final(final(self).node_builder) == *final(old(self).node_builder),
    {
        (&mut *self.node_builder, &self.pipeline_chain)
    }

    /// Begins a route for `GET` and `HEAD` requests to `path`, below the
    /// node of this scope, on which the scope goes on to stand.
    fn get<'b>(&'b mut self, path: &str) -> (route: SingleRouteBuilder<'b, H>)
        ensures
            *final(final(self).node_builder) == *final(old(self).node_builder),
    {
        let mut methods: Vec<Method> = Vec::new();
        methods.push(Method::Get);
        methods.push(Method::Head);
        assert(methods@ =~= seq![Method::Get, Method::Head]);
        self.request(methods, path)
    }

    /// Begins a route for `POST` requests to `path`, below the node of this
    /// scope, on which the scope goes on to stand.
    fn post<'b>(&'b mut self, path: &str) -> (route: SingleRouteBuilder<'b, H>)
        ensures
            *final(final(self).node_builder) == *final(old(self).node_builder),
    {
        let mut methods: Vec<Method> = Vec::new();
        methods.push(Method::Post);
        assert(methods@ =~= seq![Method::Post]);
        self.request(methods, path)
    }

    /// Begins a route for requests to `path` with one of `methods`, below
    /// the node of this scope, on which the scope goes on to stand.
    fn request<'b>(&'b mut self, methods: Vec<Method>, path: &str) -> (route: SingleRouteBuilder<
        'b,
        H,
    >)
        ensures
            *final(final(self).node_builder) == *final(old(self).node_builder),
    {
        let (node_builder, pipeline_chain) = self.component_refs();
        let node_builder = descend(node_builder, path);
        let matcher = MethodOnlyRouteMatcher::new(methods);
        SingleRouteBuilder {
            matcher,
            node_builder,
            pipeline_chain: copy_chain(pipeline_chain),
            extractors: Extractors::new(),
        }
    }

    /// Begins a scope below the node of this scope, on which this scope goes
    /// on to stand.
    fn scope<'b>(&'b mut self, path: &str) -> (scope: ScopeBuilder<'b, H>)
        ensures
            *final(final(self).node_builder) == *final(old(self).node_builder),
    {
        let (node_builder, pipeline_chain) = self.component_refs();
        let node_builder = descend(node_builder, path);
        ScopeBuilder { node_builder, pipeline_chain: copy_chain(pipeline_chain) }
    }
}

/// Defines the routes of a router, from the root of its tree.
pub struct RouterBuilder<H, M> {
    pub tree_builder: TreeBuilder<H>,
    pub pipeline_chain: Vec<PipelineHandle>,
    pub pipelines: PipelineSet<M>,
    pub response_finalizer_builder: ResponseFinalizerBuilder,
    pub delegates: Vec<Router<H, M>>,
}

/// The nested routers of a list, as contracts see them.
pub open spec fn router_views<H, M>(routers: Seq<Router<H, M>>) -> Seq<RouterView<H, M>> {
    Seq::new(routers.len(), |i: int| routers[i]@)
}

/// Whether the pipeline set holds every pipeline of the chain.
pub open spec fn chain_known<M>(chain: Seq<PipelineHandle>, pipelines: Seq<Seq<M>>) -> bool {
    forall|i: int| 0 <= i < chain.len() ==> PipelineSet::<M>::knows(pipelines, #[trigger] chain[i])
}

/// Every request method.
pub open spec fn all_methods() -> Seq<Method> {
    seq![
        Method::Options,
        Method::Get,
        Method::Post,
        Method::Put,
        Method::Delete,
        Method::Head,
        Method::Trace,
        Method::Connect,
        Method::Patch,
    ]
}

impl<H, M> DrawRoutes<H> for RouterBuilder<H, M> {
    open spec fn node(&self) -> NodeView<H> {
        self.tree_builder@
    }

    open spec fn chain(&self) -> Seq<PipelineHandle> {
        self.pipeline_chain@
    }

    open spec fn preserved(&self, after: &Self) -> bool {
        &&& after.pipelines == self.pipelines
        &&& after.response_finalizer_builder == self.response_finalizer_builder
        &&& after.delegates == self.delegates
    }

    fn component_refs(&mut self) -> (refs: (&mut NodeBuilder<H>, &Vec<PipelineHandle>)) {
        (self.tree_builder.borrow_root_mut(), &self.pipeline_chain)
    }
}

impl<H, M> RouterBuilder<H, M> {
    /// A builder for a router without routes. Its routes will run the
    /// pipelines of `pipeline_chain`, which `pipelines` is to hold.
    pub fn new(pipeline_chain: Vec<PipelineHandle>, pipelines: PipelineSet<M>) -> (builder: Self)
        ensures
            builder.tree_builder@ == empty_tree::<H>(),
            builder.pipeline_chain == pipeline_chain,
            builder.pipelines == pipelines,
            builder.response_finalizer_builder@ == Set::<ExtractorId>::empty(),
            builder.delegates@ == Seq::<Router<H, M>>::empty(),
    {
        RouterBuilder {
            tree_builder: TreeBuilder::new(),
            pipeline_chain,
            pipelines,
            response_finalizer_builder: ResponseFinalizerBuilder::new(),
            delegates: Vec::new(),
        }
    }

    /// Hands every request whose path begins with `path` to `router`, which
    /// resolves what is left of the path. The route is registered at the node
    /// that `path` leads to and accepts every method.
    pub fn delegate(&mut self, path: &str, router: Router<H, M>)
        ensures
            final(self).tree_builder@ == old(self).tree_builder@.graft(
                path_keys(path@),
                old(self).tree_builder@.descend(path_keys(path@)).with_route(
                    RouteView {
                        methods: all_methods(),
                        pipeline_chain: old(self).pipeline_chain@,
                        extractors: Extractors { path: None, query_string: None },
                        target: RouteTarget::Router(old(self).delegates@.len() as usize),
                    },
                ),
            ),
            final(self).delegates@ == old(self).delegates@.push(router),
            final(self).pipeline_chain == old(self).pipeline_chain,
            final(self).pipelines == old(self).pipelines,
            final(self).response_finalizer_builder == old(self).response_finalizer_builder,
    {
        let index = self.delegates.len();
        self.delegates.push(router);
        let mut methods: Vec<Method> = Vec::new();
        methods.push(Method::Options);
        methods.push(Method::Get);
        methods.push(Method::Post);
        methods.push(Method::Put);
        methods.push(Method::Delete);
        methods.push(Method::Head);
        methods.push(Method::Trace);
        methods.push(Method::Connect);
        methods.push(Method::Patch);
        assert(methods@ =~= all_methods());
        let route = Route::new(
            MethodOnlyRouteMatcher::new(methods),
            copy_chain(&self.pipeline_chain),
            Extractors::new(),
            RouteTarget::Router(index),
        );
        let node_builder = descend(self.tree_builder.borrow_root_mut(), path);
        node_builder.add_route(route);
    }

    /// Draws a route for requests to `path` with one of `methods` through a
    /// scope for `prefix`, and directs it to `handler`. The route lies where
    /// the prefix and the path, joined, lead to.
    pub fn request_below(&mut self, prefix: &str, methods: Vec<Method>, path: &str, handler: H)
        ensures
            final(self).tree_builder@ == old(self).tree_builder@.register(
                path_keys(prefix@) + path_keys(path@),
                RouteView {
                    methods: methods@,
                    pipeline_chain: old(self).pipeline_chain@,
                    extractors: Extractors { path: None, query_string: None },
                    target: RouteTarget::Handler(handler),
                },
            ),
            final(self).pipeline_chain@ == old(self).pipeline_chain@,
            final(self).pipelines == old(self).pipelines,
            final(self).response_finalizer_builder == old(self).response_finalizer_builder,
            final(self).delegates == old(self).delegates,
    {
        proof {
            self.tree_builder@.law_register_composes(
                path_keys(prefix@),
                path_keys(path@),
                RouteView {
                    methods: methods@,
                    pipeline_chain: self.pipeline_chain@,
                    extractors: Extractors { path: None, query_string: None },
                    target: RouteTarget::Handler(handler),
                },
            );
        }
        let mut scope = self.scope(prefix);
        scope.request(methods, path).to(handler);
    }

    /// Records that the application extends the responses of the routes that
    /// declare `extractor`.
    pub fn add_response_extender(&mut self, extractor: ExtractorId)
        ensures
            final(self).response_finalizer_builder@ == old(self).response_finalizer_builder@.insert(
                extractor,
            ),
            final(self).tree_builder == old(self).tree_builder,
            final(self).pipeline_chain == old(self).pipeline_chain,
            final(self).pipelines == old(self).pipelines,
            final(self).delegates == old(self).delegates,
    {
        self.response_finalizer_builder.add(extractor);
    }
}

/// The router that a builder describes.
pub open spec fn router_of<H, M>(builder: RouterBuilder<H, M>) -> RouterView<H, M> {
    RouterView {
        tree: builder.tree_builder@,
        pipelines: builder.pipelines@,
        extended: builder.response_finalizer_builder@,
        delegates: router_views(builder.delegates@),
    }
}

/// Why a builder describes no router, if it does not.
pub open spec fn build_error<H, M>(builder: RouterBuilder<H, M>) -> Option<BuildError> {
    if !chain_known(builder.pipeline_chain@, builder.pipelines@)
        || !builder.tree_builder@.chains_known(builder.pipelines@.len()) {
        Some(BuildError::UnknownPipeline)
    } else if !builder.tree_builder@.well_formed() {
        Some(BuildError::ConflictingDynamicSegments)
    } else {
        None
    }
}

/// Builds the router whose routes have been defined through `builder`.
///
/// This fails if the builder's pipeline chain, or the chain of a route in
/// the tree, names a pipeline that the pipeline set does not hold, and if
/// some node of the tree has more than one dynamic child.
pub fn build_router<H, M>(builder: RouterBuilder<H, M>) -> (result: Result<Router<H, M>, BuildError>)
    ensures
        match result {
            Ok(router) => build_error(builder) is None && router@ == router_of(builder),
            Err(e) => build_error(builder) == Some(e),
        },
{
    let mut i: usize = 0;
    while i < builder.pipeline_chain.len()
        invariant
            i <= builder.pipeline_chain@.len(),
            forall|j: int|
                0 <= j < i ==> PipelineSet::<M>::knows(
                    builder.pipelines@,
                    #[trigger] builder.pipeline_chain@[j],
                ),
        decreases builder.pipeline_chain@.len() - i,
    {
        if !builder.pipelines.contains(builder.pipeline_chain[i]) {
            return Err(BuildError::UnknownPipeline);
        }
        i = i + 1;
    }
    if !builder.tree_builder.has_known_chains(builder.pipelines.len()) {
        return Err(BuildError::UnknownPipeline);
    }
    let response_finalizer = builder.response_finalizer_builder.finalize();
    match builder.tree_builder.finalize() {
        Ok(tree) => {
            let router = Router::assemble(
                tree,
                builder.pipelines,
                response_finalizer,
                builder.delegates,
            );
            assert(router@ == router_of(builder));
            Ok(router)
        },
        Err(e) => Err(e),
    }
}

/// Whether a path is literal: no segment of it is dynamic. A path that ends
/// in a slash, after its leading slash, is not counted as literal, because a
/// request loses that slash before it is matched.
pub open spec fn is_literal(path: Seq<char>) -> bool {
    let segments = route_segments(path);
    &&& forall|i: int|
        0 <= i < segments.len() ==> !((#[trigger] segments[i]).len() > 0 && segments[i][0] == ':')
    &&& strip_trailing_slash(strip_leading_slash(path)) == strip_leading_slash(path)
}

/// A request to a literal path for which a route has been registered is
/// resolved to that route, with nothing bound, provided the route's matcher
/// accepts the method and no route registered earlier for the same path
/// does.
pub proof fn law_literal_route_is_found<H, M>(
    router: RouterView<H, M>,
    before: NodeView<H>,
    path: Seq<char>,
    route: RouteView<H>,
    method: Method,
)
    requires
        is_literal(path),
        router.tree == before.register(path_keys(path), route),
        route.target is Handler,
        accepts(route, method, true),
        forall|j: int|
            0 <= j < before.descend(path_keys(path)).routes.len() ==> !accepts(
                #[trigger] before.descend(path_keys(path)).routes[j],
                method,
                true,
            ),
    ensures
        router.resolve(request_segments(path), method) == (ResolutionView::Found {
            route,
            bindings: Seq::empty(),
        }),
{
    let keys = path_keys(path);
    let segments = route_segments(path);
    assert forall|i: int| 0 <= i < keys.len() implies (#[trigger] keys[i]).kind
        == SegmentType::Static && keys[i].name == segments[i] by {
        assert(keys[i] == route_key(segments[i]));
    }
    assert(key_names(keys) =~= segments);
    before.lemma_registered(keys, route);
    let earlier = before.descend(keys).routes;
    let routes = earlier.push(route);
    law_first_registered_wins(routes, method, true);
    assert(accepts(routes[earlier.len() as int], method, true));
    assert forall|j: int| 0 <= j < earlier.len() implies !accepts(
        #[trigger] routes[j],
        method,
        true,
    ) by {
        assert(routes[j] == earlier[j]);
    }
    router.law_static_path_resolves(keys, method, earlier.len() as int);
}

/// The path `/:name`.
pub open spec fn dynamic_path(name: Seq<char>) -> Seq<char> {
    seq!['/', ':'] + name
}

/// The path `/value`.
pub open spec fn single_segment_path(value: Seq<char>) -> Seq<char> {
    seq!['/'] + value
}

/// A request to `/value` is resolved to the route registered for `/:name`,
/// with `name` bound to `value`, provided the route's matcher accepts the
/// method, no route registered earlier for `/:name` does, and no static
/// child of the root that has routes is named `value`.
pub proof fn law_dynamic_route_binds<H, M>(
    router: RouterView<H, M>,
    before: NodeView<H>,
    name: Seq<char>,
    value: Seq<char>,
    route: RouteView<H>,
    method: Method,
)
    requires
        forall|i: int| 0 <= i < name.len() ==> name[i] != '/',
        forall|i: int| 0 <= i < value.len() ==> value[i] != '/',
        value.len() > 0,
        router.tree == before.register(path_keys(dynamic_path(name)), route),
        router.tree.well_formed(),
        before.static_child(value) matches Some(i) ==> before.children[i].routes.len() == 0,
        route.target is Handler,
        accepts(route, method, true),
        forall|j: int|
            0 <= j < before.descend(path_keys(dynamic_path(name))).routes.len() ==> !accepts(
                #[trigger] before.descend(path_keys(dynamic_path(name))).routes[j],
                method,
                true,
            ),
    ensures
        router.resolve(request_segments(single_segment_path(value)), method) == (ResolutionView::Found {
            route,
            bindings: seq![BindingView { name, value }],
        }),
{
    let path = dynamic_path(name);
    let marked = seq![':'] + name;
    assert(strip_leading_slash(path) =~= marked);
    lemma_split_without_separator(marked, '/');
    let keys = path_keys(path);
    assert(marked.skip(1) =~= name);
    assert(keys =~= seq![SegmentKey { name, kind: SegmentType::Dynamic }]);
    let target = single_segment_path(value);
    assert(strip_leading_slash(target) =~= value);
    lemma_split_without_separator(value, '/');
    assert(request_segments(target) == seq![value]);
    before.law_dynamic_segment_binds(name, value, route);
    let earlier = before.descend(keys).routes;
    let routes = earlier.push(route);
    law_first_registered_wins(routes, method, true);
    assert(accepts(routes[earlier.len() as int], method, true));
    assert forall|j: int| 0 <= j < earlier.len() implies !accepts(
        #[trigger] routes[j],
        method,
        true,
    ) by {
        assert(routes[j] == earlier[j]);
    }
}

/// A path below a prefix leads where the two, written as one path, lead:
/// drawing `/submit` in a scope for `/api` is drawing `/api/submit`. This
/// holds where the prefix names at least one segment, and the path begins
/// with a slash and names at least one segment.
pub proof fn law_joined_path_keys(prefix: Seq<char>, path: Seq<char>)
    requires
        strip_leading_slash(prefix).len() > 0,
        path.len() > 1,
        path[0] == '/',
    ensures
        path_keys(prefix + path) == path_keys(prefix) + path_keys(path),
{
    let head = strip_leading_slash(prefix);
    let tail = strip_leading_slash(path);
    assert(tail =~= path.skip(1));
    assert(strip_leading_slash(prefix + path) =~= head + seq!['/'] + tail);
    law_split_of_joined(head, tail, '/');
    let joined = route_segments(prefix + path);
    assert(joined == route_segments(prefix) + route_segments(path));
    assert(path_keys(prefix + path) =~= path_keys(prefix) + path_keys(path));
}

} // verus!

//! The router: a frozen tree, the pipelines its routes refer to, and the
//! nested routers that some of its routes hand requests on to.

use vstd::prelude::*;
use vstd::string::*;
use crate::path::{request_segments, split_request_path, strings_view};
use crate::pipeline::PipelineSet;
use crate::response::ResponseFinalizer;
use crate::route::{
    method_named, Delegation, ExtractorId, MatchOutcome, Method, Route, RouteTarget, RouteView,
};
use crate::tree::{
    all_static, key_names, BindingView, BuildError, NodeBuilder, NodeView, PathMatch, SegmentKey, SegmentMapping,
    Tree,
};

verus! {

/// Whether a route is a candidate for a request whose path has led to the
/// route's node: with segments left over, only a route that hands them on to
/// a nested router is.
pub open spec fn applies<H>(route: RouteView<H>, rest_empty: bool) -> bool {
    rest_empty || route.delegation() == Delegation::External
}

/// Whether the route is a candidate and its matcher accepts the method.
pub open spec fn accepts<H>(route: RouteView<H>, method: Method, rest_empty: bool) -> bool {
    applies(route, rest_empty) && route.outcome(method) == MatchOutcome::Matched
}

/// The position of the first route at or after `from` that accepts the
/// request.
pub open spec fn first_match<H>(
    routes: Seq<RouteView<H>>,
    method: Method,
    rest_empty: bool,
    from: int,
) -> Option<int>
    decreases routes.len() - from,
{
    if from < 0 || from >= routes.len() {
        None
    } else if accepts(routes[from], method, rest_empty) {
        Some(from)
    } else {
        first_match(routes, method, rest_empty, from + 1)
    }
}

/// Whether some candidate route turns the request down for its method.
pub open spec fn rejects_method<H>(
    routes: Seq<RouteView<H>>,
    method: Method,
    rest_empty: bool,
) -> bool {
    exists|i: int|
        0 <= i < routes.len() && applies(#[trigger] routes[i], rest_empty) && routes[i].outcome(
            method,
        ) == MatchOutcome::MethodNotAllowed
}

/// Which of a node's routes, if any, receives a request.
#[derive(Clone, Copy, PartialEq, Eq, Structural, Debug)]
pub enum RouteChoice {
    /// The route at this position.
    Route(usize),
    /// None, and at least one candidate turned the request down for its
    /// method.
    MethodNotAllowed,
    /// None.
    NotFound,
}

/// What the choice among `routes` is: the first route that accepts the
/// request; without one, `MethodNotAllowed` if a candidate turned the request
/// down for its method, and `NotFound` otherwise.
pub open spec fn choice_of<H>(routes: Seq<RouteView<H>>, method: Method, rest_empty: bool) -> RouteChoice {
    match first_match(routes, method, rest_empty, 0) {
        Some(i) => RouteChoice::Route(i as usize),
        None => if rejects_method(routes, method, rest_empty) {
            RouteChoice::MethodNotAllowed
        } else {
            RouteChoice::NotFound
        },
    }
}

/// Chooses among the routes of `node` for a request with `method`;
/// `rest_empty` says whether the walk to the node has used up the request's
/// path.
pub fn select_route<H>(node: &NodeBuilder<H>, method: Method, rest_empty: bool) -> (choice:
    RouteChoice)
    ensures
        choice == choice_of(node@.routes, method, rest_empty),
        choice matches RouteChoice::Route(i) ==> i < node@.routes.len() && first_match(
            node@.routes,
            method,
            rest_empty,
            0,
        ) == Some(i as int),
{
    let n = node.route_count();
    let mut rejected = false;
    let mut i: usize = 0;
    while i < n
        invariant
            i <= n == node@.routes.len(),
            first_match(node@.routes, method, rest_empty, 0) == first_match(
                node@.routes,
                method,
                rest_empty,
                i as int,
            ),
            rejected <==> exists|j: int|
                0 <= j < i && applies(#[trigger] node@.routes[j], rest_empty)
                    && node@.routes[j].outcome(method) == MatchOutcome::MethodNotAllowed,
        decreases n - i,
    {
        let route = node.route(i);
        let candidate = rest_empty || route.delegation() == Delegation::External;
        if candidate {
            match route.is_match(method) {
                MatchOutcome::Matched => {
                    return RouteChoice::Route(i);
                },
                MatchOutcome::MethodNotAllowed => {
                    rejected = true;
                },
                MatchOutcome::NotMatch => {},
            }
        }
        i = i + 1;
    }
    if rejected {
        RouteChoice::MethodNotAllowed
    } else {
        RouteChoice::NotFound
    }
}

/// A router and the routers nested in it, as contracts see them.
pub struct RouterView<H, M> {
    /// The segment tree.
    pub tree: NodeView<H>,
    /// The pipelines, each by its position.
    pub pipelines: Seq<Seq<M>>,
    /// The extractors that have a response extender.
    pub extended: Set<ExtractorId>,
    /// The nested routers, each by its position.
    pub delegates: Seq<RouterView<H, M>>,
}

/// What becomes of a request.
pub enum ResolutionView<H> {
    /// It goes to the handler of `route`, with `bindings` taken from its
    /// path.
    Found { route: RouteView<H>, bindings: Seq<BindingView> },
    /// Its path leads to routes, none of which allows its method.
    MethodNotAllowed,
    /// Its path leads to no route.
    NotFound,
}

impl<H, M> RouterView<H, M> {
    /// What becomes of a request with `method` whose path consists of
    /// `segments`.
    ///
    /// The tree is walked along the segments, and the first route of the node
    /// reached that accepts the request is chosen. If that route has a
    /// handler, the request is resolved. If it hands on to a nested router,
    /// the segments that the walk has used up are dropped and what is left is
    /// resolved by the nested router, from its root.
    pub open spec fn resolve(self, segments: Seq<Seq<char>>, method: Method) -> ResolutionView<H>
        decreases self,
    {
        match self.tree.match_path(segments) {
            None => ResolutionView::NotFound,
            Some(found) => {
                let rest_empty = found.consumed == segments.len();
                match first_match(found.node.routes, method, rest_empty, 0) {
                    Some(i) => match found.node.routes[i].target {
                        RouteTarget::Handler(_) => ResolutionView::Found {
                            route: found.node.routes[i],
                            bindings: found.bindings,
                        },
                        RouteTarget::Router(k) => if k < self.delegates.len() {
                            self.delegates[k as int].resolve(
                                segments.skip(found.consumed as int),
                                method,
                            )
                        } else {
                            ResolutionView::NotFound
                        },
                    },
                    None => if rejects_method(found.node.routes, method, rest_empty) {
                        ResolutionView::MethodNotAllowed
                    } else {
                        ResolutionView::NotFound
                    },
                }
            },
        }
    }
}

impl<H, M> RouterView<H, M> {
    /// What becomes of a request whose method is given by name. A name that
    /// stands for no method is accepted by no route: the request is turned
    /// down for its method if its path leads to routes, and finds nothing
    /// otherwise.
    pub open spec fn resolve_named(
        self,
        name: Seq<char>,
        segments: Seq<Seq<char>>,
    ) -> ResolutionView<H> {
        match method_named(name) {
            Some(method) => self.resolve(segments, method),
            None => if self.tree.match_path(segments) is Some {
                ResolutionView::MethodNotAllowed
            } else {
                ResolutionView::NotFound
            },
        }
    }
}

/// What becomes of a request.
pub enum Resolution<'a, H> {
    /// It goes to the handler of `route`, with `mapping` taken from its path.
    Found { route: &'a Route<H>, mapping: SegmentMapping },
    /// Its path leads to routes, none of which allows its method.
    MethodNotAllowed,
    /// Its path leads to no route.
    NotFound,
}

impl<'a, H> View for Resolution<'a, H> {
    type V = ResolutionView<H>;

    open spec fn view(&self) -> ResolutionView<H> {
        match self {
            Resolution::Found { route, mapping } => ResolutionView::Found {
                route: route@,
                bindings: mapping@,
            },
            Resolution::MethodNotAllowed => ResolutionView::MethodNotAllowed,
            Resolution::NotFound => ResolutionView::NotFound,
        }
    }
}

/// Finds the route for each request.
pub struct Router<H, M> {
    tree: Tree<H>,
    pipelines: PipelineSet<M>,
    response_finalizer: ResponseFinalizer,
    delegates: Vec<Router<H, M>>,
}

impl<H, M> View for Router<H, M> {
    type V = RouterView<H, M>;

    closed spec fn view(&self) -> RouterView<H, M> {
        self.model()
    }
}

impl<H, M> Router<H, M> {
    /// The router and the routers nested in it, as contracts see them.
    pub closed spec fn model(&self) -> RouterView<H, M>
        decreases self,
    {
        RouterView {
            tree: self.tree@,
            pipelines: self.pipelines@,
            extended: self.response_finalizer@,
            delegates: Seq::new(
                self.delegates@.len(),
                |i: int|
                    if 0 <= i < self.delegates@.len() {
                        self.delegates@[i].model()
                    } else {
                        arbitrary()
                    },
            ),
        }
    }

    #[verifier::type_invariant]
    spec fn tree_fits(self) -> bool {
        &&& self.tree@.well_formed()
        &&& self.tree@.chains_known(self.pipelines@.len())
    }

    /// Puts a router together from parts that are known to fit.
    pub(crate) fn assemble(
        tree: Tree<H>,
        pipelines: PipelineSet<M>,
        response_finalizer: ResponseFinalizer,
        delegates: Vec<Router<H, M>>,
    ) -> (router: Self)
        requires
            tree@.well_formed(),
            tree@.chains_known(pipelines@.len()),
        ensures
            router@ == (RouterView {
                tree: tree@,
                pipelines: pipelines@,
                extended: response_finalizer@,
                delegates: Seq::new(delegates@.len(), |i: int| delegates@[i]@),
            }),
    {
        let router = Router { tree, pipelines, response_finalizer, delegates };
        assert(router@.delegates =~= Seq::new(delegates@.len(), |i: int| delegates@[i]@));
        router
    }

    /// A router made of its parts. This fails if and only if the pipeline
    /// chain of some route in the tree names a pipeline that `pipelines`
    /// does not hold.
    pub fn new(
        tree: Tree<H>,
        pipelines: PipelineSet<M>,
        response_finalizer: ResponseFinalizer,
        delegates: Vec<Router<H, M>>,
    ) -> (result: Result<Self, BuildError>)
        ensures
            result is Ok <==> tree@.chains_known(pipelines@.len()),
            result matches Ok(router) ==> router@ == (RouterView {
                tree: tree@,
                pipelines: pipelines@,
                extended: response_finalizer@,
                delegates: Seq::new(delegates@.len(), |i: int| delegates@[i]@),
            }),
            result matches Err(e) ==> e == BuildError::UnknownPipeline,
    {
        if tree.root().has_known_chains(pipelines.len()) {
            Ok(Self::assemble(tree, pipelines, response_finalizer, delegates))
        } else {
            Err(BuildError::UnknownPipeline)
        }
    }

    /// The tree of this router. Every node of it has at most one dynamic
    /// child, and every pipeline chain in it refers to pipelines of this
    /// router.
    pub fn tree(&self) -> (tree: &Tree<H>)
        ensures
            tree@ == self@.tree,
            self@.tree.well_formed(),
            self@.tree.chains_known(self@.pipelines.len()),
    {
        proof {
            use_type_invariant(self);
        }
        &self.tree
    }

    /// The pipelines that the routes of this router refer to.
    pub fn pipelines(&self) -> (pipelines: &PipelineSet<M>)
        ensures
            pipelines@ == self@.pipelines,
    {
        &self.pipelines
    }

    /// The finalizer for the responses of this router's routes.
    pub fn response_finalizer(&self) -> (finalizer: &ResponseFinalizer)
        ensures
            finalizer@ == self@.extended,
    {
        &self.response_finalizer
    }

    /// Resolves a request with `method` whose path consists of the segments
    /// from position `from` on.
    pub fn resolve<'a>(&'a self, method: Method, segments: &Vec<String>, from: usize) -> (found:
        Resolution<'a, H>)
        requires
            from <= segments@.len(),
        ensures
            found@ == self@.resolve(strings_view(segments@).skip(from as int), method),
        decreases self,
    {
        let ghost rest = strings_view(segments@).skip(from as int);
        match self.tree.match_path(segments, from) {
            None => Resolution::NotFound,
            Some(reached) => {
                let rest_empty = reached.consumed == segments.len() - from;
                match select_route(reached.node, method, rest_empty) {
                    RouteChoice::Route(i) => {
                        let route = reached.node.route(i);
                        match &route.target {
                            RouteTarget::Handler(_) => Resolution::Found {
                                route,
                                mapping: reached.mapping,
                            },
                            RouteTarget::Router(k) => {
                                if *k < self.delegates.len() {
                                    assert(self@.delegates[*k as int] == self.delegates@[*k as int]@);
                                    assert(rest.skip(reached.consumed as int) =~= strings_view(
                                        segments@,
                                    ).skip(from + reached.consumed));
                                    self.delegates[*k].resolve(
                                        method,
                                        segments,
                                        from + reached.consumed,
                                    )
                                } else {
                                    Resolution::NotFound
                                }
                            },
                        }
                    },
                    RouteChoice::MethodNotAllowed => Resolution::MethodNotAllowed,
                    RouteChoice::NotFound => Resolution::NotFound,
                }
            },
        }
    }

    /// Resolves a request for `path` whose method is given by its name, as
    /// it stands in the request. The path is taken without its query string.
    pub fn route_named<'a>(&'a self, method: &str, path: &str) -> (found: Resolution<'a, H>)
        ensures
            found@ == self@.resolve_named(method@, request_segments(path@)),
    {
        match Method::from_name(method) {
            Some(method) => self.route(method, path),
            None => {
                let segments = split_request_path(path);
                assert(strings_view(segments@).skip(0) =~= strings_view(segments@));
                if self.tree.match_path(&segments, 0).is_some() {
                    Resolution::MethodNotAllowed
                } else {
                    Resolution::NotFound
                }
            },
        }
    }

    /// Resolves a request with `method` for `path`. The path is taken
    /// without its query string.
    pub fn route<'a>(&'a self, method: Method, path: &str) -> (found: Resolution<'a, H>)
        ensures
            found@ == self@.resolve(request_segments(path@), method),
    {
        let segments = split_request_path(path);
        assert(strings_view(segments@).skip(0) =~= strings_view(segments@));
        self.resolve(method, &segments, 0)
    }
}

/// Registration order breaks ties: the route chosen is the first one that
/// accepts the request, whatever routes after it would have done; and none
/// is chosen only if no route accepts the request.
pub proof fn law_first_registered_wins<H>(
    routes: Seq<RouteView<H>>,
    method: Method,
    rest_empty: bool,
)
    ensures
        match first_match(routes, method, rest_empty, 0) {
            Some(k) => {
                &&& 0 <= k < routes.len()
                &&& accepts(routes[k], method, rest_empty)
                &&& forall|j: int| 0 <= j < k ==> !accepts(#[trigger] routes[j], method, rest_empty)
            },
            None => forall|j: int|
                0 <= j < routes.len() ==> !accepts(#[trigger] routes[j], method, rest_empty),
        },
{
    lemma_first_match(routes, method, rest_empty, 0);
}

proof fn lemma_first_match<H>(routes: Seq<RouteView<H>>, method: Method, rest_empty: bool, from: int)
    requires
        0 <= from,
    ensures
        match first_match(routes, method, rest_empty, from) {
            Some(k) => {
                &&& from <= k < routes.len()
                &&& accepts(routes[k], method, rest_empty)
                &&& forall|j: int| from <= j < k ==> !accepts(#[trigger] routes[j], method, rest_empty)
            },
            None => forall|j: int|
                from <= j < routes.len() ==> !accepts(#[trigger] routes[j], method, rest_empty),
        },
    decreases routes.len() - from,
{
    if from < routes.len() && !accepts(routes[from], method, rest_empty) {
        lemma_first_match(routes, method, rest_empty, from + 1);
    }
}

/// A route registered after others does not take a request from them: with
/// one more route at the end, the choice stays the same whenever one of the
/// earlier routes accepts the request.
pub proof fn law_later_route_does_not_override<H>(
    routes: Seq<RouteView<H>>,
    later: RouteView<H>,
    method: Method,
    rest_empty: bool,
)
    requires
        first_match(routes, method, rest_empty, 0) is Some,
    ensures
        first_match(routes.push(later), method, rest_empty, 0) == first_match(
            routes,
            method,
            rest_empty,
            0,
        ),
{
    lemma_first_match_pushed(routes, later, method, rest_empty, 0);
}

proof fn lemma_first_match_pushed<H>(
    routes: Seq<RouteView<H>>,
    later: RouteView<H>,
    method: Method,
    rest_empty: bool,
    from: int,
)
    requires
        0 <= from,
        first_match(routes, method, rest_empty, from) is Some,
    ensures
        first_match(routes.push(later), method, rest_empty, from) == first_match(
            routes,
            method,
            rest_empty,
            from,
        ),
    decreases routes.len() - from,
{
    if from < routes.len() {
        assert(routes.push(later)[from] == routes[from]);
        if !accepts(routes[from], method, rest_empty) {
            lemma_first_match_pushed(routes, later, method, rest_empty, from + 1);
        }
    }
}

impl<H, M> RouterView<H, M> {
    /// A request whose path consists of the text of static keys, which lead
    /// through existing nodes to a node with routes, goes to the first route
    /// of that node that accepts its method, with nothing bound.
    pub proof fn law_static_path_resolves(self, keys: Seq<SegmentKey>, method: Method, i: int)
        requires
            all_static(keys),
            self.tree.holds(keys),
            first_match(self.tree.descend(keys).routes, method, true, 0) == Some(i),
            self.tree.descend(keys).routes[i].target is Handler,
        ensures
            self.resolve(key_names(keys), method) == (ResolutionView::Found {
                route: self.tree.descend(keys).routes[i],
                bindings: Seq::empty(),
            }),
    {
        lemma_first_match(self.tree.descend(keys).routes, method, true, 0);
        self.tree.law_static_path_matches(keys);
    }

    /// A route that hands on to a nested router transfers the request there:
    /// the segments that led to the route are dropped, and the nested router
    /// resolves the rest from its own root.
    pub proof fn law_delegation_resumes_in_nested_router(
        self,
        segments: Seq<Seq<char>>,
        method: Method,
        reached: PathMatch<H>,
        i: int,
        k: usize,
    )
        requires
            self.tree.match_path(segments) == Some(reached),
            first_match(reached.node.routes, method, reached.consumed == segments.len(), 0)
                == Some(i),
            reached.node.routes[i].target == RouteTarget::<H>::Router(k),
            k < self.delegates.len(),
        ensures
            self.resolve(segments, method) == self.delegates[k as int].resolve(
                segments.skip(reached.consumed as int),
                method,
            ),
    {
    }

    /// Resolving is a function of the router, the path and the method: the
    /// same request has the same resolution every time.
    pub proof fn law_resolution_is_repeatable(
        self,
        segments: Seq<Seq<char>>,
        method: Method,
        first: ResolutionView<H>,
        second: ResolutionView<H>,
    )
        requires
            first == self.resolve(segments, method),
            second == self.resolve(segments, method),
        ensures
            first == second,
    {
    }
}

} // verus!

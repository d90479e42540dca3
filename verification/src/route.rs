//! Routes and the matchers that decide whether a route applies to a request.

use vstd::prelude::*;
use crate::pipeline::PipelineHandle;

verus! {

/// The request methods that a route can be registered for.
#[derive(Clone, Copy, PartialEq, Eq, Structural, Debug)]
pub enum Method {
    Options,
    Get,
    Post,
    Put,
    Delete,
    Head,
    Trace,
    Connect,
    Patch,
}

/// The method that a name stands for. Names are compared exactly, so that
/// `get` names no method; a name outside this list names none either.
pub open spec fn method_named(name: Seq<char>) -> Option<Method> {
    if name == "OPTIONS"@ {
        Some(Method::Options)
    } else if name == "GET"@ {
        Some(Method::Get)
    } else if name == "POST"@ {
        Some(Method::Post)
    } else if name == "PUT"@ {
        Some(Method::Put)
    } else if name == "DELETE"@ {
        Some(Method::Delete)
    } else if name == "HEAD"@ {
        Some(Method::Head)
    } else if name == "TRACE"@ {
        Some(Method::Trace)
    } else if name == "CONNECT"@ {
        Some(Method::Connect)
    } else if name == "PATCH"@ {
        Some(Method::Patch)
    } else {
        None
    }
}

/// Reads a method name with `hyper::Method::from_str`, which knows the nine
/// standard names in upper case, takes any other name that is not empty as
/// an extension method, and rejects the empty name. The contract claims
/// that each standard name gives its method, and that an extension method
/// and the error both come back as `None`.
#[verifier::external_body]
fn parse_method(name: &str) -> (method: Option<Method>)
    ensures
        method == method_named(name@),
{
    match name.parse::<hyper::Method>() {
        Ok(hyper::Method::Options) => Some(Method::Options),
        Ok(hyper::Method::Get) => Some(Method::Get),
        Ok(hyper::Method::Post) => Some(Method::Post),
        Ok(hyper::Method::Put) => Some(Method::Put),
        Ok(hyper::Method::Delete) => Some(Method::Delete),
        Ok(hyper::Method::Head) => Some(Method::Head),
        Ok(hyper::Method::Trace) => Some(Method::Trace),
        Ok(hyper::Method::Connect) => Some(Method::Connect),
        Ok(hyper::Method::Patch) => Some(Method::Patch),
        Ok(hyper::Method::Extension(_)) => None,
        Err(_) => None,
    }
}

impl Method {
    /// The method that `name` stands for, if it is the name of one of the
    /// methods that routes can be registered for.
    pub fn from_name(name: &str) -> (method: Option<Method>)
        ensures
            method == method_named(name@),
    {
        parse_method(name)
    }
}

/// What a matcher says of a request whose path has led to its route.
#[derive(Clone, Copy, PartialEq, Eq, Structural, Debug)]
pub enum MatchOutcome {
    /// The route applies.
    Matched,
    /// The route is registered for other methods than the request's.
    MethodNotAllowed,
    /// The route does not apply, for a reason other than the method.
    NotMatch,
}

/// Whether a matched route invokes its handler or hands the rest of the path
/// to a nested router.
#[derive(Clone, Copy, PartialEq, Eq, Structural, Debug)]
pub enum Delegation {
    Internal,
    External,
}

/// Names an extractor that the application has defined.
#[derive(Clone, Copy, PartialEq, Eq, Structural, Debug)]
pub struct ExtractorId {
    pub id: u64,
}

/// The extractors that a route declares. `None` stands for the extractor
/// that accepts anything and stores nothing.
#[derive(Clone, Copy, PartialEq, Eq, Structural, Debug)]
pub struct Extractors {
    pub path: Option<ExtractorId>,
    pub query_string: Option<ExtractorId>,
}

impl Extractors {
    /// No extractor for the path and none for the query string.
    pub fn new() -> (extractors: Self)
        ensures
            extractors == (Extractors { path: None, query_string: None }),
    {
        Extractors { path: None, query_string: None }
    }
}

/// What the outcome of a method-only matcher is on `method`, given the
/// methods it allows.
pub open spec fn method_outcome(allowed: Seq<Method>, method: Method) -> MatchOutcome {
    if allowed.contains(method) {
        MatchOutcome::Matched
    } else {
        MatchOutcome::MethodNotAllowed
    }
}

/// Accepts a request if and only if its method is one of a fixed list.
pub struct MethodOnlyRouteMatcher {
    methods: Vec<Method>,
}

impl View for MethodOnlyRouteMatcher {
    type V = Seq<Method>;

    closed spec fn view(&self) -> Seq<Method> {
        self.methods@
    }
}

impl MethodOnlyRouteMatcher {
    /// A matcher that allows exactly `methods`.
    pub fn new(methods: Vec<Method>) -> (matcher: Self)
        ensures
            matcher@ == methods@,
    {
        MethodOnlyRouteMatcher { methods }
    }

    /// Decides whether a request with `method` is accepted.
    pub fn is_match(&self, method: Method) -> (outcome: MatchOutcome)
        ensures
            outcome == method_outcome(self@, method),
    {
        let mut i: usize = 0;
        while i < self.methods.len()
            invariant
                i <= self.methods@.len(),
                forall|j: int| 0 <= j < i ==> self.methods@[j] != method,
            decreases self.methods@.len() - i,
        {
            if self.methods[i] == method {
                return MatchOutcome::Matched;
            }
            i = i + 1;
        }
        MatchOutcome::MethodNotAllowed
    }
}

/// Where a matched route sends the request.
pub enum RouteTarget<H> {
    /// To this handler.
    Handler(H),
    /// To the nested router with this number among the router's delegates.
    Router(usize),
}

/// One registered route: a matcher, the pipelines to run, the extractors to
/// apply, and the target that finally receives the request.
pub struct Route<H> {
    pub matcher: MethodOnlyRouteMatcher,
    pub pipeline_chain: Vec<PipelineHandle>,
    pub extractors: Extractors,
    pub target: RouteTarget<H>,
}

/// A route as contracts see it.
pub struct RouteView<H> {
    pub methods: Seq<Method>,
    pub pipeline_chain: Seq<PipelineHandle>,
    pub extractors: Extractors,
    pub target: RouteTarget<H>,
}

impl<H> RouteView<H> {
    /// Whether the route hands the request on to a nested router.
    pub open spec fn delegation(self) -> Delegation {
        match self.target {
            RouteTarget::Handler(_) => Delegation::Internal,
            RouteTarget::Router(_) => Delegation::External,
        }
    }

    /// What the route's matcher says of `method`.
    pub open spec fn outcome(self, method: Method) -> MatchOutcome {
        method_outcome(self.methods, method)
    }
}

impl<H> View for Route<H> {
    type V = RouteView<H>;

    open spec fn view(&self) -> RouteView<H> {
        RouteView {
            methods: self.matcher@,
            pipeline_chain: self.pipeline_chain@,
            extractors: self.extractors,
            target: self.target,
        }
    }
}

impl<H> Route<H> {
    /// Puts a route together from its parts.
    pub fn new(
        matcher: MethodOnlyRouteMatcher,
        pipeline_chain: Vec<PipelineHandle>,
        extractors: Extractors,
        target: RouteTarget<H>,
    ) -> (route: Self)
        ensures
            route@ == (RouteView {
                methods: matcher@,
                pipeline_chain: pipeline_chain@,
                extractors,
                target,
            }),
    {
        Route { matcher, pipeline_chain, extractors, target }
    }

    /// Whether the route hands the request on to a nested router.
    pub fn delegation(&self) -> (delegation: Delegation)
        ensures
            delegation == self@.delegation(),
    {
        match &self.target {
            RouteTarget::Handler(_) => Delegation::Internal,
            RouteTarget::Router(_) => Delegation::External,
        }
    }

    /// What the route's matcher says of `method`.
    pub fn is_match(&self, method: Method) -> (outcome: MatchOutcome)
        ensures
            outcome == self@.outcome(method),
    {
        self.matcher.is_match(method)
    }
}

} // verus!

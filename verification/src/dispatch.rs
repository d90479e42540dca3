//! The dispatch protocol.
//!
//! Once a route is found, its extractors run, then the pipelines of its
//! chain in their order, then its handler. Extractors, middleware and
//! handlers belong to the application, so the dispatcher does not run them:
//! it says what is to be done next, is told how that went, and decides what
//! follows. Any step but the handler may stop the dispatch early; the
//! response is then due at once and nothing else runs.

use vstd::prelude::*;
use crate::pipeline::PipelineHandle;
use crate::response::{extender_for, Extenders, ResponseFinalizer};
use crate::route::{ExtractorId, Extractors, Route, RouteView};

verus! {

/// Where the response of a dispatch comes from.
#[derive(Clone, Copy, PartialEq, Eq, Structural, Debug)]
pub enum ResponseSource {
    /// The extractor could not read the request: a client error is due.
    ExtractionFailed(ExtractorId),
    /// The pipeline has answered the request itself.
    ShortCircuit(PipelineHandle),
    /// The handler has answered the request.
    Handler,
}

/// What the application is to do next.
#[derive(Clone, Copy, PartialEq, Eq, Structural, Debug)]
pub enum Action {
    /// Run this extractor on the bindings taken from the path.
    ExtractPath(ExtractorId),
    /// Run this extractor on the query string.
    ExtractQueryString(ExtractorId),
    /// Run the middleware of this pipeline.
    RunPipeline(PipelineHandle),
    /// Invoke the route's handler.
    InvokeHandler,
    /// Send the response from `source`, after the extenders have run on it.
    Respond { source: ResponseSource, extenders: Extenders },
    /// Nothing: the response has been named already.
    Finished,
}

/// How the step that was asked for went.
#[derive(Clone, Copy, PartialEq, Eq, Structural, Debug)]
pub enum Report {
    /// It is done and the dispatch goes on.
    Continue,
    /// It has ended the dispatch: an extractor failed, or a pipeline has
    /// produced the response itself.
    Stop,
}

/// The steps that an extractor declaration asks for.
pub open spec fn extraction_steps(extractors: Extractors) -> Seq<Action> {
    let path = match extractors.path {
        Some(e) => seq![Action::ExtractPath(e)],
        None => Seq::<Action>::empty(),
    };
    let query_string = match extractors.query_string {
        Some(e) => seq![Action::ExtractQueryString(e)],
        None => Seq::<Action>::empty(),
    };
    path + query_string
}

/// One step for each pipeline of a chain, in the chain's order.
pub open spec fn pipeline_steps(chain: Seq<PipelineHandle>) -> Seq<Action> {
    Seq::new(chain.len(), |i: int| Action::RunPipeline(chain[i]))
}

/// The steps of a dispatch that nothing stops: the declared extractors, the
/// pipelines of the chain in their order, and the handler.
pub open spec fn script_of<H>(route: RouteView<H>) -> Seq<Action> {
    extraction_steps(route.extractors) + pipeline_steps(route.pipeline_chain) + seq![
        Action::InvokeHandler,
    ]
}

/// The source of the response that is due when `step` has ended the
/// dispatch.
pub open spec fn source_of(step: Action) -> ResponseSource {
    match step {
        Action::ExtractPath(e) => ResponseSource::ExtractionFailed(e),
        Action::ExtractQueryString(e) => ResponseSource::ExtractionFailed(e),
        Action::RunPipeline(h) => ResponseSource::ShortCircuit(h),
        _ => ResponseSource::Handler,
    }
}

/// A dispatch in progress, as contracts see it.
pub struct DispatchView {
    /// The steps of the dispatch if nothing stops it.
    pub script: Seq<Action>,
    /// The extenders that are due on the response.
    pub extenders: Extenders,
    /// The position in the script of the step that was asked for last.
    pub position: nat,
    /// Whether the response has been named.
    pub finished: bool,
}

impl DispatchView {
    /// The dispatch of a request to `route` before anything has run.
    pub open spec fn start<H>(route: RouteView<H>, extended: Set<ExtractorId>) -> Self {
        DispatchView {
            script: script_of(route),
            extenders: Extenders {
                path: extender_for(extended, route.extractors.path),
                query_string: extender_for(extended, route.extractors.query_string),
            },
            position: 0,
            finished: false,
        }
    }

    /// The step that is asked for first.
    pub open spec fn first_action(self) -> Action {
        self.script[0]
    }

    /// The dispatch after the step asked for last has been reported on.
    pub open spec fn after(self, report: Report) -> Self {
        if self.finished || self.position >= self.script.len() {
            DispatchView { finished: true, ..self }
        } else if report == Report::Continue && self.position + 1 < self.script.len() {
            DispatchView { position: self.position + 1, ..self }
        } else {
            DispatchView { finished: true, ..self }
        }
    }

    /// What is to be done once the step asked for last has been reported on.
    pub open spec fn answer(self, report: Report) -> Action {
        if self.finished || self.position >= self.script.len() {
            Action::Finished
        } else if report == Report::Continue && self.position + 1 < self.script.len() {
            self.script[self.position as int + 1]
        } else {
            Action::Respond {
                source: source_of(self.script[self.position as int]),
                extenders: self.extenders,
            }
        }
    }

    /// The answers to a sequence of reports, in order.
    pub open spec fn run(self, reports: Seq<Report>) -> Seq<Action>
        decreases reports.len(),
    {
        if reports.len() == 0 {
            Seq::empty()
        } else {
            seq![self.answer(reports[0])] + self.after(reports[0]).run(reports.skip(1))
        }
    }
}

/// Conducts the dispatch of one request to one route.
pub struct Dispatcher {
    script: Vec<Action>,
    extenders: Extenders,
    position: usize,
    finished: bool,
}

impl View for Dispatcher {
    type V = DispatchView;

    closed spec fn view(&self) -> DispatchView {
        DispatchView {
            script: self.script@,
            extenders: self.extenders,
            position: self.position as nat,
            finished: self.finished,
        }
    }
}

impl Dispatcher {
    /// Begins the dispatch of a request to `route` and says what is to be
    /// done first.
    pub fn begin<H>(route: &Route<H>, finalizer: &ResponseFinalizer) -> (started: (Self, Action))
        ensures
            started.0@ == DispatchView::start(route@, finalizer@),
            started.1 == started.0@.first_action(),
    {
        let mut script: Vec<Action> = Vec::new();
        match route.extractors.path {
            Some(e) => {
                script.push(Action::ExtractPath(e));
            },
            None => {},
        }
        match route.extractors.query_string {
            Some(e) => {
                script.push(Action::ExtractQueryString(e));
            },
            None => {},
        }
        assert(script@ =~= extraction_steps(route@.extractors));
        let ghost head = script@;
        let mut i: usize = 0;
        while i < route.pipeline_chain.len()
            invariant
                i <= route.pipeline_chain@.len(),
                head == extraction_steps(route@.extractors),
                script@ == head + pipeline_steps(route.pipeline_chain@.take(i as int)),
            decreases route.pipeline_chain@.len() - i,
        {
            script.push(Action::RunPipeline(route.pipeline_chain[i]));
            assert(script@ =~= head + pipeline_steps(route.pipeline_chain@.take(i + 1)));
            i = i + 1;
        }
        assert(route.pipeline_chain@.take(i as int) =~= route.pipeline_chain@);
        script.push(Action::InvokeHandler);
        assert(script@ =~= script_of(route@));
        let first = script[0];
        let extenders = finalizer.extenders(route.extractors);
        (Dispatcher { script, extenders, position: 0, finished: false }, first)
    }

    /// Takes the report on the step asked for last and says what is to be
    /// done next.
    pub fn next(&mut self, report: Report) -> (action: Action)
        ensures
            final(self)@ == old(self)@.after(report),
            action == old(self)@.answer(report),
    {
        if self.finished || self.position >= self.script.len() {
            self.finished = true;
            Action::Finished
        } else if report == Report::Continue && self.position + 1 < self.script.len() {
            self.position = self.position + 1;
            self.script[self.position]
        } else {
            self.finished = true;
            let source = match self.script[self.position] {
                Action::ExtractPath(e) => ResponseSource::ExtractionFailed(e),
                Action::ExtractQueryString(e) => ResponseSource::ExtractionFailed(e),
                Action::RunPipeline(h) => ResponseSource::ShortCircuit(h),
                _ => ResponseSource::Handler,
            };
            Action::Respond { source, extenders: self.extenders }
        }
    }

    /// Whether the response has been named.
    pub fn is_finished(&self) -> (finished: bool)
        ensures
            finished == self@.finished,
    {
        self.finished
    }
}

/// Whether the first `n` reports all say that the dispatch goes on.
pub open spec fn all_continue(reports: Seq<Report>, n: int) -> bool {
    forall|q: int| 0 <= q < n && q < reports.len() ==> reports[q] == Report::Continue
}

/// Whether an action makes the application run an extractor, a pipeline or
/// the handler.
pub open spec fn is_work(action: Action) -> bool {
    action is ExtractPath || action is ExtractQueryString || action is RunPipeline
        || action is InvokeHandler
}

impl DispatchView {
    /// Everything that the application is asked to do in the course of
    /// `reports`: the first action, then the answer to each report.
    pub open spec fn trace(self, reports: Seq<Report>) -> Seq<Action> {
        seq![self.first_action()] + self.run(reports)
    }

    /// The answer to the report at position `p`, in closed form.
    pub open spec fn answer_at(self, reports: Seq<Report>, p: int) -> Action {
        if all_continue(reports, p + 1) && self.position + p + 1 < self.script.len() {
            self.script[self.position + p + 1]
        } else if all_continue(reports, p) && self.position + p < self.script.len() {
            Action::Respond {
                source: source_of(self.script[self.position + p]),
                extenders: self.extenders,
            }
        } else {
            Action::Finished
        }
    }

    proof fn lemma_run_finished(self, reports: Seq<Report>, p: int)
        requires
            self.finished || self.position >= self.script.len(),
            0 <= p < reports.len(),
        ensures
            self.run(reports).len() == reports.len(),
            self.run(reports)[p] == Action::Finished,
        decreases reports.len(),
    {
        self.lemma_run_len(reports);
        if p > 0 {
            self.after(reports[0]).lemma_run_finished(reports.skip(1), p - 1);
        }
    }

    proof fn lemma_run_len(self, reports: Seq<Report>)
        ensures
            self.run(reports).len() == reports.len(),
        decreases reports.len(),
    {
        if reports.len() > 0 {
            self.after(reports[0]).lemma_run_len(reports.skip(1));
        }
    }

    /// The answers of a run are given by `answer_at`.
    pub proof fn lemma_run(self, reports: Seq<Report>, p: int)
        requires
            !self.finished,
            self.position < self.script.len(),
            0 <= p < reports.len(),
        ensures
            self.run(reports).len() == reports.len(),
            self.run(reports)[p] == self.answer_at(reports, p),
        decreases reports.len(),
    {
        self.lemma_run_len(reports);
        if p > 0 {
            let next = self.after(reports[0]);
            let rest = reports.skip(1);
            assert forall|n: int| 0 <= n && reports[0] == Report::Continue implies (all_continue(
                rest,
                n,
            ) <==> all_continue(reports, n + 1)) by {
                if all_continue(rest, n) {
                    assert forall|q: int| 0 <= q < n + 1 && q < reports.len() implies reports[q]
                        == Report::Continue by {
                        if q > 0 {
                            assert(rest[q - 1] == reports[q]);
                        }
                    }
                }
                if all_continue(reports, n + 1) {
                    assert forall|q: int| 0 <= q < n && q < rest.len() implies rest[q]
                        == Report::Continue by {
                        assert(rest[q] == reports[q + 1]);
                    }
                }
            }
            if next.finished {
                next.lemma_run_finished(rest, p - 1);
                if reports[0] == Report::Stop {
                    assert(!all_continue(reports, p));
                    assert(!all_continue(reports, p + 1));
                }
            } else {
                next.lemma_run(rest, p - 1);
                assert(all_continue(rest, p) <==> all_continue(reports, p + 1));
                assert(all_continue(rest, p - 1) <==> all_continue(reports, p));
            }
        }
    }

    /// Work is asked for in the order of the script and only as long as
    /// every report says that the dispatch goes on: if the action at position
    /// `p` of the trace is work, it is the step at position `p` of the
    /// script, and every earlier report says `Continue`.
    pub proof fn law_work_follows_script(self, reports: Seq<Report>, p: int)
        requires
            !self.finished,
            self.position == 0,
            self.script.len() > 0,
            0 <= p <= reports.len(),
            is_work(self.trace(reports)[p]),
        ensures
            p < self.script.len(),
            self.trace(reports)[p] == self.script[p],
            all_continue(reports, p),
    {
        if p > 0 {
            self.lemma_run(reports, p - 1);
        }
    }

    /// A step that stops the dispatch is the last piece of work: the answer
    /// to its report names the response, and every later answer is
    /// `Finished`.
    pub proof fn law_stop_ends_dispatch(self, reports: Seq<Report>, q: int, p: int)
        requires
            !self.finished,
            self.position == 0,
            self.script.len() > 0,
            0 <= q < p <= reports.len(),
            reports[q] == Report::Stop,
        ensures
            !is_work(self.trace(reports)[p]),
            p > q + 1 ==> self.trace(reports)[p] == Action::Finished,
            all_continue(reports, q) && q < self.script.len() ==> self.trace(reports)[q + 1] == (
            Action::Respond { source: source_of(self.script[q]), extenders: self.extenders }),
    {
        self.lemma_run(reports, p - 1);
        self.lemma_run(reports, q);
        assert(!all_continue(reports, p));
        assert(!all_continue(reports, q + 1));
        if p > q + 1 {
            assert(!all_continue(reports, p - 1));
        }
    }
}

/// The script of a route lists the declared extractors, then the pipelines
/// of the chain in the chain's order, and the handler last and nowhere else.
pub proof fn law_script_order<H>(route: RouteView<H>)
    ensures
        ({
            let script = script_of(route);
            let first = extraction_steps(route.extractors).len();
            &&& script.len() == first + route.pipeline_chain.len() + 1
            &&& first <= 2
            &&& forall|i: int|
                0 <= i < first ==> (#[trigger] script[i] is ExtractPath || script[i] is ExtractQueryString)
            &&& forall|i: int|
                0 <= i < route.pipeline_chain.len() ==> #[trigger] script[first + i]
                    == Action::RunPipeline(route.pipeline_chain[i])
            &&& script[script.len() - 1] == Action::InvokeHandler
            &&& forall|i: int| 0 <= i < script.len() ==> is_work(#[trigger] script[i])
        }),
{
}

/// When a pipeline of a route's chain stops the dispatch, the pipelines
/// after it and the handler do not run: the answer names the response of
/// that pipeline, and nothing that is asked for later is work.
pub proof fn law_short_circuit_skips_the_rest<H>(
    route: RouteView<H>,
    extended: Set<ExtractorId>,
    reports: Seq<Report>,
    q: int,
    p: int,
)
    requires
        0 <= q < p <= reports.len(),
        DispatchView::start(route, extended).trace(reports)[q] is RunPipeline,
        reports[q] == Report::Stop,
    ensures
        ({
            let dispatch = DispatchView::start(route, extended);
            &&& !is_work(dispatch.trace(reports)[p])
            &&& dispatch.trace(reports)[q + 1] == (Action::Respond {
                source: source_of(dispatch.trace(reports)[q]),
                extenders: dispatch.extenders,
            })
        }),
{
    let dispatch = DispatchView::start(route, extended);
    law_script_order(route);
    dispatch.law_work_follows_script(reports, q);
    dispatch.law_stop_ends_dispatch(reports, q, p);
}

/// The handler is invoked only after every declared extractor and every
/// pipeline of the chain has run and reported that the dispatch goes on. In
/// particular, a failed extraction never reaches the handler.
pub proof fn law_handler_runs_last<H>(
    route: RouteView<H>,
    extended: Set<ExtractorId>,
    reports: Seq<Report>,
    p: int,
)
    requires
        0 <= p <= reports.len(),
        DispatchView::start(route, extended).trace(reports)[p] == Action::InvokeHandler,
    ensures
        ({
            let dispatch = DispatchView::start(route, extended);
            &&& p == script_of(route).len() - 1
            &&& all_continue(reports, p)
            &&& forall|q: int| 0 <= q < p ==> #[trigger] dispatch.trace(reports)[q] == script_of(route)[q]
        }),
{
    let dispatch = DispatchView::start(route, extended);
    let script = script_of(route);
    law_script_order(route);
    dispatch.law_work_follows_script(reports, p);
    let first = extraction_steps(route.extractors).len() as int;
    if p < script.len() - 1 {
        if p >= first {
            assert(script[first + (p - first)] == Action::RunPipeline(route.pipeline_chain[p - first]));
        }
    }
    assert forall|q: int| 0 <= q < p implies #[trigger] dispatch.trace(reports)[q] == script[q] by {
        if q > 0 {
            dispatch.lemma_run(reports, q - 1);
            assert(all_continue(reports, q));
        }
    }
}

} // verus!

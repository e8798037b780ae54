//! Running a process. A token travels from element to element until it forks,
//! joins a gateway or ends; the tokens of a process run in rounds until none
//! is left or an end event stops the run.
use vstd::prelude::*;
use crate::bpmn::{Symbol, Bpmn, Event, Activity, EventType, GatewayType, ActivityType, Gateway, Outputs, spec_gateway_text,
    spec_event_text, spec_activity_text};
use crate::diagram::{Diagram, ProcessData, opt_view, process_wf, bpmn_within, outputs_within, spec_last_boundary,
    spec_last_link, spec_first_flow, spec_first_catch, spec_flow_matches, spec_catches};
use crate::engine::{Next, spec_inclusive_result, spec_boundary_request, spec_thrown, follow_outputs, task_next, exclusive_next, inclusive_next, event_based_next,
    subprocess_next, copy_ids, spec_all_flows};
use crate::error::{DiagramError, RuntimeError};
use crate::process::Process;
use crate::tokens::{ExecuteHandler, TokenState, spec_take, spec_consume, spec_fork, spec_now, spec_commit, spec_pop,
    spec_fresh};
use crate::api::{Exclusive, Inclusive, IntermediateEvent, Task};
use crate::handler::{Answer, Answers};
use crate::text::{owned, join2};

verus! {

/// Where a token stopped.
pub enum Return {
    /// It forked into these tokens.
    Fork(Vec<usize>),
    /// It reached this joining gateway.
    Join(usize),
    /// It reached this end event.
    End(usize),
}

/// Every index is below `n`.
pub open spec fn spec_below(v: Seq<usize>, n: nat) -> bool {
    forall|i: int| 0 <= i < v.len() ==> #[trigger] v[i] < n
}

/// Element `e` is an end event.
pub open spec fn spec_is_end(pd: ProcessData, e: usize) -> bool {
    &&& e < pd.data@.len()
    &&& pd.data@[e as int] matches Bpmn::Event(ev)
    &&& ev.event_type == EventType::End
}

/// Element `g` is a parallel or inclusive gateway that joins several inputs.
pub open spec fn spec_is_join(pd: ProcessData, g: usize) -> bool {
    &&& g < pd.data@.len()
    &&& pd.data@[g as int] matches Bpmn::Gateway(gw)
    &&& (gw.gateway_type == GatewayType::Parallel || gw.gateway_type == GatewayType::Inclusive)
    &&& gw.inputs > 1
}

/// A token stops only where it may: new tokens are elements of the process,
/// a join is a joining gateway, an end is an end event.
pub open spec fn spec_return_ok(pd: ProcessData, r: Return) -> bool {
    match r {
        Return::Fork(v) => spec_below(v@, pd.data@.len()),
        Return::Join(g) => spec_is_join(pd, g),
        Return::End(e) => spec_is_end(pd, e),
    }
}

/// Every gateway that tokens of a group joined is a joining gateway.
pub open spec fn spec_joins_ok(h: ExecuteHandler, pd: ProcessData) -> bool {
    forall|k: int, j: int| 0 <= k < h.token_stack@.len() && 0 <= j < h.token_stack@[k].joined@.len()
        ==> spec_is_join(pd, #[trigger] h.token_stack@[k].joined@[j])
}

/// Whether a token at event `e` runs one of the process's callbacks; `cbs`
/// holds the end, intermediate throw and intermediate catch callbacks.
pub open spec fn spec_runs_callback(e: Event, cbs: (Option<usize>, Option<usize>, Option<usize>)) -> bool {
    &&& e.symbol is Some
    &&& match e.event_type {
        EventType::End => cbs.0 is Some,
        EventType::IntermediateThrow => cbs.1 is Some && e.symbol != Some(Symbol::Link),
        EventType::IntermediateCatch => cbs.2 is Some && e.symbol != Some(Symbol::Link),
        _ => false,
    }
}

/// Where a token that starts at `cur` stops, if it gets there in at most `k`
/// moves without asking any function and without entering a subprocess: the
/// first element at which it neither asks nor goes on.
pub open spec fn spec_reaches_stop(pd: ProcessData, cbs: Callbacks, c: Counts, cur: usize, k: nat) -> Option<usize>
    decreases k,
{
    if cur >= pd.data@.len() || spec_open(pd, cur) || spec_consumes(pd, cbs, c, cur) {
        None
    } else {
        match spec_go(pd, cbs, c, cur, None) {
            None => Some(cur),
            Some(nx) => if k == 0 { None } else { spec_reaches_stop(pd, cbs, c, nx, (k - 1) as nat) },
        }
    }
}

/// A token that asks nothing stops at element `x` at an end event or in an
/// error, not in a fork or a join.
pub open spec fn spec_single(pd: ProcessData, cbs: Callbacks, c: Counts, x: usize) -> bool {
    forall|r: Result<Return, RuntimeError>| #[trigger] spec_stop(pd, cbs, c, x, None, r)
        ==> !(r matches Ok(Return::Fork(_))) && !(r matches Ok(Return::Join(_)))
}

/// Where the start token of a process stops, when it gets there without
/// asking any function, without entering a subprocess and without forking or
/// joining.
pub open spec fn spec_start_stop(pd: ProcessData, cbs: Callbacks, c: Counts) -> Option<usize> {
    match spec_reaches_stop(pd, cbs, c, pd.start, (u64::MAX - 3) as nat) {
        Some(x) => if spec_single(pd, cbs, c, x) { Some(x) } else { None },
        None => None,
    }
}

/// The numbers of registered functions of each kind: tasks, exclusive,
/// inclusive and event-based gateways, end and intermediate events.
pub type Counts = (nat, nat, nat, nat, nat);

/// The event callbacks: end, intermediate throw, intermediate catch.
pub type Callbacks = (Option<usize>, Option<usize>, Option<usize>);

/// How many functions of kind `k` are registered.
pub open spec fn spec_count_of(c: Counts, k: nat) -> nat {
    if k == 0 { c.0 } else if k == 1 { c.1 } else if k == 2 { c.2 } else if k == 3 { c.3 } else { c.4 }
}

/// The error for a function index with no function of kind `k` behind it.
pub open spec fn spec_missing_run(k: nat, i: usize, r: Result<Return, RuntimeError>) -> bool {
    r matches Err(RuntimeError::Engine(m)) && m@ == (if k == 0 { "missing run_task with index: "@ }
        else if k == 1 { "missing run_exclusive with index: "@ }
        else if k == 2 { "missing run_inclusive with index: "@ }
        else if k == 3 { "missing run_eventbased with index: "@ }
        else { "missing run_end_or_intermediate with index: "@ }) + crate::text::spec_decimal(i as nat)
}

/// The function a token at element `cur` runs, by kind and index: the task
/// function (kind 0), the function of a branching exclusive (1), inclusive (2)
/// or event-based (3) gateway, or an event callback (4).
pub open spec fn spec_function_of(pd: ProcessData, cbs: Callbacks, cur: usize) -> Option<(nat, usize)> {
    if cur >= pd.data@.len() {
        None
    } else {
        match pd.data@[cur as int] {
            Bpmn::Event(e) => if spec_runs_callback(e, cbs) && (e.event_type != EventType::IntermediateThrow || e.name is Some) {
                match e.event_type {
                    EventType::End => Some((4nat, cbs.0->0)),
                    EventType::IntermediateThrow => Some((4nat, cbs.1->0)),
                    _ => Some((4nat, cbs.2->0)),
                }
            } else {
                None
            },
            Bpmn::Activity(a) => if a.activity_type != ActivityType::SubProcess && a.func_idx is Some {
                Some((0nat, a.func_idx->0))
            } else {
                None
            },
            Bpmn::Gateway(g) => {
                let k = g.outputs.local_ids@.len();
                if k == 0 || (k == 1 && g.inputs == 1) || g.func_idx is None {
                    None
                } else {
                    match g.gateway_type {
                        GatewayType::Exclusive => if k > 1 { Some((1nat, g.func_idx->0)) } else { None },
                        GatewayType::Inclusive => if g.inputs <= 1 { Some((2nat, g.func_idx->0)) } else { None },
                        GatewayType::EventBased => if k > 1 { Some((3nat, g.func_idx->0)) } else { None },
                        GatewayType::Parallel => None,
                    }
                }
            },
            _ => None,
        }
    }
}

/// The index of the function, when there is one.
pub open spec fn spec_function_index(f: Option<(nat, usize)>) -> usize {
    match f {
        Some((_, i)) => i,
        None => 0,
    }
}

/// A token at element `cur` asks a registered function for an answer.
pub open spec fn spec_consumes(pd: ProcessData, cbs: Callbacks, c: Counts, cur: usize) -> bool {
    spec_function_of(pd, cbs, cur) matches Some((k, i)) && i < spec_count_of(c, k)
}

/// Element `cur` is a subprocess: what happens there is the subprocess's run.
pub open spec fn spec_open(pd: ProcessData, cur: usize) -> bool {
    &&& cur < pd.data@.len()
    &&& pd.data@[cur as int] matches Bpmn::Activity(a)
    &&& a.activity_type == ActivityType::SubProcess
}

/// The only output, when there is exactly one.
pub open spec fn spec_out_go(o: Outputs) -> Option<usize> {
    if o.local_ids@.len() == 1 { Some(o.local_ids@[0]) } else { None }
}

/// Following the outputs stops: without output, at an error; with several, in a fork of all of them.
pub open spec fn spec_out_stop(o: Outputs, text: Seq<char>, r: Result<Return, RuntimeError>) -> bool {
    &&& o.local_ids@.len() == 0 ==> (r matches Err(RuntimeError::Diagram(DiagramError::MissingOutput(m))) && m@ == text)
    &&& o.local_ids@.len() == 1 ==> false
    &&& o.local_ids@.len() > 1 ==> (r matches Ok(Return::Fork(v)) && v@ == o.local_ids@)
}

/// The error of an element that needs a function and has none.
pub open spec fn spec_missing_function(text: Seq<char>, r: Result<Return, RuntimeError>) -> bool {
    r matches Err(RuntimeError::Engine(m)) && m@ == "missing function "@ + text
}

/// Where a token at element `cur` goes next, if it goes on, given the answer
/// of the function it asked (if it asked one).
#[verifier::opaque]
pub open spec fn spec_go(pd: ProcessData, cbs: Callbacks, c: Counts, cur: usize, ans: Option<Answer>) -> Option<usize> {
    if cur >= pd.data@.len() {
        None
    } else {
        match pd.data@[cur as int] {
            Bpmn::SequenceFlow { target_ref, .. } => Some(target_ref.local_id),
            Bpmn::Event(e) => match e.event_type {
                EventType::Start | EventType::Boundary => spec_out_go(e.outputs),
                EventType::End => None,
                _ => if e.event_type == EventType::IntermediateThrow && e.name is None {
                    None
                } else if e.event_type == EventType::IntermediateThrow && e.symbol == Some(Symbol::Link) {
                    spec_last_link(pd.events.catch_event_links@, e.name->0@)
                } else if spec_consumes(pd, cbs, c, cur) {
                    if ans matches Some(Answer::Event(Ok(_))) { spec_out_go(e.outputs) } else { None }
                } else if spec_function_of(pd, cbs, cur) is Some {
                    None
                } else {
                    spec_out_go(e.outputs)
                },
            },
            Bpmn::Activity(a) => if a.activity_type == ActivityType::SubProcess || !spec_consumes(pd, cbs, c, cur) {
                None
            } else {
                match ans {
                    Some(Answer::Task(Task::Default)) => spec_out_go(a.outputs),
                    Some(Answer::Task(Task::Boundary(name, s))) =>
                        spec_last_boundary(pd.events.boundaries@, a.id.local_id, s, opt_view(name)),
                    _ => None,
                }
            },
            Bpmn::Gateway(g) => {
                let k = g.outputs.local_ids@.len();
                if k == 0 {
                    None
                } else if (k == 1 && g.inputs == 1) || (k == 1 && g.gateway_type == GatewayType::Exclusive) {
                    Some(g.outputs.local_ids@[0])
                } else if !spec_consumes(pd, cbs, c, cur) {
                    None
                } else {
                    match ans {
                        Some(Answer::Exclusive(Exclusive::Flow(v))) if g.gateway_type == GatewayType::Exclusive =>
                            spec_first_flow(pd, g.outputs.local_ids@, v@),
                        Some(Answer::Exclusive(Exclusive::Default)) if g.gateway_type == GatewayType::Exclusive =>
                            match g.default { Some(d) => Some(d.local_id), None => None },
                        Some(Answer::EventBased(IntermediateEvent::Throw(name, s))) if g.gateway_type == GatewayType::EventBased =>
                            spec_first_catch(pd, g.outputs.local_ids@, name@, s),
                        _ => None,
                    }
                }
            },
        }
    }
}

/// How a token at element `cur` stops when it does not go on: `r` is the
/// result, given the answer of the function it asked (if it asked one).
#[verifier::opaque]
pub open spec fn spec_stop(pd: ProcessData, cbs: Callbacks, c: Counts, cur: usize, ans: Option<Answer>,
    r: Result<Return, RuntimeError>) -> bool
{
    if cur >= pd.data@.len() {
        false
    } else {
        match pd.data@[cur as int] {
            Bpmn::SequenceFlow { .. } => false,
            Bpmn::Event(e) => match e.event_type {
                EventType::Start | EventType::Boundary => spec_out_stop(e.outputs, spec_event_text(e), r),
                _ => if e.event_type == EventType::IntermediateThrow && e.name is None {
                    r matches Err(RuntimeError::Diagram(DiagramError::MissingIntermediateThrowEventName(m)))
                        && m@ == e.id.bpmn_id@
                } else if e.event_type == EventType::IntermediateThrow && e.symbol == Some(Symbol::Link) {
                    r matches Err(RuntimeError::Diagram(DiagramError::MissingIntermediateCatchEvent(s, n)))
                        && s@ == "Link"@ && n@ == e.name->0@
                } else if spec_consumes(pd, cbs, c, cur) {
                    match ans {
                        Some(Answer::Event(Err(m))) => r == Err::<Return, RuntimeError>(RuntimeError::Panic(m)),
                        Some(Answer::Event(Ok(()))) => if e.event_type == EventType::End {
                            r == Ok::<Return, RuntimeError>(Return::End(cur))
                        } else {
                            spec_out_stop(e.outputs, spec_event_text(e), r)
                        },
                        _ => false,
                    }
                } else if spec_function_of(pd, cbs, cur) is Some {
                    spec_missing_run(4, spec_function_index(spec_function_of(pd, cbs, cur)), r)
                } else if e.event_type == EventType::End {
                    r == Ok::<Return, RuntimeError>(Return::End(cur))
                } else {
                    spec_out_stop(e.outputs, spec_event_text(e), r)
                },
            },
            Bpmn::Activity(a) => if a.activity_type == ActivityType::SubProcess {
                false
            } else if a.func_idx is None {
                spec_missing_function(spec_activity_text(a), r)
            } else if !spec_consumes(pd, cbs, c, cur) {
                spec_missing_run(0, a.func_idx->0, r)
            } else {
                match ans {
                    Some(Answer::Task(Task::Default)) => spec_out_stop(a.outputs, spec_activity_text(a), r),
                    Some(Answer::Task(Task::Boundary(name, s))) =>
                        r matches Err(RuntimeError::Diagram(DiagramError::MissingBoundary(m1, m2)))
                            && m1@ == spec_boundary_request(opt_view(name), s) && m2@ == spec_activity_text(a),
                    Some(Answer::Task(Task::Panic(m))) => r == Err::<Return, RuntimeError>(RuntimeError::Panic(m)),
                    _ => false,
                }
            },
            Bpmn::Gateway(g) => {
                let k = g.outputs.local_ids@.len();
                let text = spec_gateway_text(g);
                if k == 0 {
                    r matches Err(RuntimeError::Diagram(DiagramError::MissingOutput(m))) && m@ == text
                } else if (g.gateway_type == GatewayType::Parallel || g.gateway_type == GatewayType::Inclusive)
                    && !(k == 1 && g.inputs == 1) && g.inputs > 1 {
                    r == Ok::<Return, RuntimeError>(Return::Join(cur))
                } else if g.gateway_type == GatewayType::Parallel {
                    r matches Ok(Return::Fork(v)) && v@ == g.outputs.local_ids@
                } else if g.gateway_type == GatewayType::EventBased && k == 1 {
                    r matches Err(RuntimeError::Diagram(DiagramError::BpmnRequirement(m)))
                        && m@ == "Event gateway must have at least two outgoing sequence flows"@
                } else if g.func_idx is None {
                    spec_missing_function(text, r)
                } else if !spec_consumes(pd, cbs, c, cur) {
                    match spec_function_of(pd, cbs, cur) {
                        Some((k, i)) => spec_missing_run(k, i, r),
                        None => false,
                    }
                } else {
                    match ans {
                        Some(Answer::Exclusive(Exclusive::Flow(v))) => r matches Err(RuntimeError::Diagram(
                            DiagramError::MissingOutput(m))) && m@ == text,
                        Some(Answer::Exclusive(Exclusive::Default)) => r matches Err(RuntimeError::Diagram(
                            DiagramError::MissingDefault(m))) && m@ == text,
                        Some(Answer::Exclusive(Exclusive::Panic(m))) => r == Err::<Return, RuntimeError>(RuntimeError::Panic(m)),
                        Some(Answer::Inclusive(x)) => match r {
                            Ok(Return::Fork(w)) => spec_inclusive_result(pd, g, x, Ok(w)),
                            Err(er) => spec_inclusive_result(pd, g, x, Err(er)),
                            _ => false,
                        },
                        Some(Answer::EventBased(IntermediateEvent::Throw(name, s))) => r matches Err(RuntimeError::Diagram(
                            DiagramError::MissingIntermediateEvent(m1, m2))) && m1@ == text && m2@ == spec_thrown(name@, s),
                        Some(Answer::EventBased(IntermediateEvent::Panic(m))) =>
                            r == Err::<Return, RuntimeError>(RuntimeError::Panic(m)),
                        _ => false,
                    }
                }
            },
        }
    }
}

/// Names a way to cut a run: after `i` answers, with `f` fuel left and
/// result `r`. It holds always; it marks where a choice of cut is used.
pub open spec fn spec_cut<R>(i: int, f: nat, r: R) -> bool {
    true
}

/// The error for a subprocess whose process data is not there.
pub open spec fn spec_missing_sub(a: Activity, r: Result<Return, RuntimeError>) -> bool {
    r matches Err(RuntimeError::Engine(m)) && m@ == "missing subprocess data with bpmn id "@ + spec_activity_text(a)
}

/// Where a token goes on after the subprocess `a` ended at end event `ev`:
/// to the boundary event for the end event's symbol and name, when the end
/// event leaves by a boundary and there is one, else to the only output.
pub open spec fn spec_sub_go(pd: ProcessData, a: Activity, ev: Event) -> Option<usize> {
    if crate::engine::spec_leaves_by_boundary(ev) {
        spec_last_boundary(pd.events.boundaries@, a.id.local_id, ev.symbol->0, opt_view(ev.name))
    } else {
        spec_out_go(a.outputs)
    }
}

/// How a token stops after the subprocess `a` ended at end event `ev`, when
/// it does not go on: the missing boundary, the missing output, or a fork.
pub open spec fn spec_sub_stop(pd: ProcessData, a: Activity, ev: Event, r: Result<Return, RuntimeError>) -> bool {
    if crate::engine::spec_leaves_by_boundary(ev) {
        r matches Err(RuntimeError::Diagram(DiagramError::MissingBoundary(m1, m2)))
            && m1@ == crate::bpmn::spec_symbol_name(ev.symbol->0) && m2@ == spec_activity_text(a)
    } else {
        spec_out_stop(a.outputs, spec_activity_text(a), r)
    }
}

/// A token of process `p` of diagram `d` that starts at `cur` with `fuel` steps left, where the functions
/// it asks give the answers `log` in turn, ends with `r` and `fo` steps left.
/// One step is taken per element; at a subprocess the subprocess runs as
/// `spec_exec` says, and the token goes on as its end event leads.
pub open spec fn spec_walk(d: Diagram, p: usize, cbs: Callbacks, c: Counts, cur: usize, log: Seq<Answer>, fuel: nat,
    fo: nat, r: Result<Return, RuntimeError>) -> bool
    decreases p, fuel, 0nat, 0nat, 0nat,
{
    let pd = d.data@[p as int];
    if fuel == 0 {
        &&& log.len() == 0
        &&& fo == 0
        &&& r matches Err(RuntimeError::Engine(m))
        &&& m@ == "step limit reached"@
    } else if cur >= pd.data@.len() {
        false
    } else if spec_open(pd, cur) {
        let a = pd.data@[cur as int]->Activity_0;
        match a.data_index {
            None => {
                &&& log.len() == 0
                &&& fo == fuel - 1
                &&& spec_missing_sub(a, r)
            },
            Some(sub) => sub < p && sub < d.data@.len() && exists|i: int, fs: nat, er: Result<usize, RuntimeError>|
                #![trigger spec_cut(i, fs, er)]
                spec_cut(i, fs, er) && 0 <= i <= log.len() && fs <= fuel - 1
                && spec_rounds(d, sub, true, cbs, c, spec_fresh(d.data@[sub as int].start), None,
                    log.subrange(0, i), (fuel - 1) as nat, fs, er)
                && match er {
                    Err(e) => i == log.len() && fo == fs && r == Err::<Return, RuntimeError>(e),
                    Ok(end) => if end < d.data@[sub as int].data@.len() && d.data@[sub as int].data@[end as int] is Event {
                        let ev = d.data@[sub as int].data@[end as int]->Event_0;
                        match spec_sub_go(pd, a, ev) {
                            Some(b) => spec_walk(d, p, cbs, c, b, log.subrange(i, log.len() as int), fs, fo, r),
                            None => i == log.len() && fo == fs && spec_sub_stop(pd, a, ev, r),
                        }
                    } else {
                        i == log.len() && fo == fs && spec_missing_sub(a, r)
                    },
                },
        }
    } else {
        let k: int = if spec_consumes(pd, cbs, c, cur) { 1 } else { 0 };
        let ans = if k == 1 && log.len() >= 1 { Some(log[0]) } else { None };
        &&& log.len() >= k
        &&& match spec_go(pd, cbs, c, cur, ans) {
            Some(n) => spec_walk(d, p, cbs, c, n, log.subrange(k, log.len() as int), (fuel - 1) as nat, fo, r),
            None => log.len() == k && fo == fuel - 1 && spec_stop(pd, cbs, c, cur, ans, r),
        }
    }
}

/// A token that reaches end event `e` ends the run at once: a terminate or
/// error end event, or in a subprocess any end event with a symbol.
pub open spec fn spec_stops(pd: ProcessData, e: usize, sub: bool) -> bool {
    &&& e < pd.data@.len()
    &&& pd.data@[e as int] matches Bpmn::Event(ev)
    &&& ((sub && ev.symbol is Some) || ev.symbol == Some(Symbol::Terminate) || ev.symbol == Some(Symbol::Error))
}

/// A run of process `p` of diagram `d` from token state `t`, the last end event reached so
/// far being `le`, with `fuel` left, where the functions asked give the
/// answers `log` in turn: it ends with `r` and `fo` fuel left. Each round
/// takes the ready token lists, runs them last list first, each token in
/// order, then commits the forks of the round.
pub open spec fn spec_rounds(d: Diagram, p: usize, sub: bool, cbs: Callbacks, c: Counts, t: TokenState, le: Option<usize>,
    log: Seq<Answer>, fuel: nat, fo: nat, r: Result<usize, RuntimeError>) -> bool
    decreases p, fuel, 0nat, 0nat, 0nat,
{
    let pd = d.data@[p as int];
    if fuel == 0 {
        &&& log.len() == 0
        &&& fo == 0
        &&& r matches Err(RuntimeError::Engine(m))
        &&& m@ == "step limit reached"@
    } else if t.ready.len() == 0 {
        &&& log.len() == 0
        &&& fo == fuel - 1
        &&& match le {
            Some(e) => r == Ok::<usize, RuntimeError>(e),
            None => r matches Err(RuntimeError::Diagram(DiagramError::MissingEndEvent)),
        }
    } else {
        spec_lists(d, p, sub, cbs, c, spec_take(t), le, t.ready, t.ready.len(), log, (fuel - 1) as nat, fo, r)
    }
}

/// The lists of a round below index `k` are still to run (the last first);
/// when none is left the forks of the round are committed.
pub open spec fn spec_lists(d: Diagram, p: usize, sub: bool, cbs: Callbacks, c: Counts, t: TokenState, le: Option<usize>,
    active: Seq<Seq<usize>>, k: nat, log: Seq<Answer>, fuel: nat, fo: nat, r: Result<usize, RuntimeError>) -> bool
    decreases p, fuel, 1nat, k, 0nat,
{
    let pd = d.data@[p as int];
    if k == 0 {
        spec_rounds(d, p, sub, cbs, c, spec_commit(t), le, log, fuel, fo, r)
    } else {
        spec_tokens(d, p, sub, cbs, c, t, le, active, (k - 1) as nat, 0, log, fuel, fo, r)
    }
}

/// The tokens of list `kk` from index `j` on are still to run; each walks as
/// `spec_walk` says over the answers it takes, then joins, ends or forks.
pub open spec fn spec_tokens(d: Diagram, p: usize, sub: bool, cbs: Callbacks, c: Counts, t: TokenState, le: Option<usize>,
    active: Seq<Seq<usize>>, kk: nat, j: nat, log: Seq<Answer>, fuel: nat, fo: nat, r: Result<usize, RuntimeError>) -> bool
    decreases p, fuel, 1nat, kk, (if kk < active.len() && j <= active[kk as int].len() { active[kk as int].len() - j + 2 } else { 0 }),
{
    let pd = d.data@[p as int];
    if kk >= active.len() || j > active[kk as int].len() {
        false
    } else if j == active[kk as int].len() {
        spec_close(d, p, sub, cbs, c, t, le, active, kk, log, fuel, fo, r)
    } else {
        exists|i: int, f1: nat, ret: Result<Return, RuntimeError>|
            #![trigger spec_cut(i, f1, ret)]
            spec_cut(i, f1, ret) && 0 <= i <= log.len() && f1 <= fuel
            && spec_walk(d, p, cbs, c, active[kk as int][j as int], log.subrange(0, i), fuel, f1, ret)
            && match ret {
                Err(e) => i == log.len() && fo == f1 && r == Err::<usize, RuntimeError>(e),
                Ok(Return::Join(g)) => spec_tokens(d, p, sub, cbs, c, spec_consume(t, Some(g)), le, active, kk, j + 1,
                    log.subrange(i, log.len() as int), f1, fo, r),
                Ok(Return::End(e)) => if spec_stops(pd, e, sub) {
                    i == log.len() && fo == f1 && r == Ok::<usize, RuntimeError>(e)
                } else {
                    spec_tokens(d, p, sub, cbs, c, spec_consume(t, None), Some(e), active, kk, j + 1,
                        log.subrange(i, log.len() as int), f1, fo, r)
                },
                Ok(Return::Fork(v)) => spec_tokens(d, p, sub, cbs, c, spec_fork(t, v@), le, active, kk, j + 1,
                    log.subrange(i, log.len() as int), f1, fo, r),
            }
    }
}

/// After list `kk` ran: when all tokens of the top group are consumed the
/// group closes and the gateway they joined fires (a parallel gateway forks
/// into its outputs, an inclusive one into the flows its function chose);
/// too few tokens at a parallel gateway, or tokens that joined different
/// gateways, stop the run.
pub open spec fn spec_close(d: Diagram, p: usize, sub: bool, cbs: Callbacks, c: Counts, t: TokenState, le: Option<usize>,
    active: Seq<Seq<usize>>, kk: nat, log: Seq<Answer>, fuel: nat, fo: nat, r: Result<usize, RuntimeError>) -> bool
    decreases p, fuel, 1nat, kk, 1nat,
{
    let pd = d.data@[p as int];
    let g = t.groups;
    if !(g.len() > 0 && g.last().0 <= g.last().2) {
        spec_lists(d, p, sub, cbs, c, t, le, active, kk, log, fuel, fo, r)
    } else {
        let joined = g.last().1;
        let t2 = spec_pop(t);
        if crate::tokens::spec_too_few_tokens(pd, joined) {
            &&& log.len() == 0
            &&& fo == fuel
            &&& r matches Err(RuntimeError::Diagram(DiagramError::BpmnRequirement(m)))
            &&& m@ == "Execution stopped. Not enough tokens at "@ + spec_gateway_text(pd.data@[joined[0] as int]->Gateway_0)
        } else if !crate::tokens::spec_all_same(joined) {
            &&& log.len() == 0
            &&& fo == fuel
            &&& r matches Err(RuntimeError::Diagram(DiagramError::NotSupported(m)))
            &&& m@ == "Unbalanced diagram"@
        } else if joined.len() == 0 || joined[0] >= pd.data@.len() || !(pd.data@[joined[0] as int] is Gateway) {
            spec_lists(d, p, sub, cbs, c, t2, le, active, kk, log, fuel, fo, r)
        } else {
            let gw = pd.data@[joined[0] as int]->Gateway_0;
            let outs = gw.outputs.local_ids@;
            if (gw.gateway_type == GatewayType::Parallel || gw.gateway_type == GatewayType::Inclusive) && outs.len() == 1 {
                spec_lists(d, p, sub, cbs, c, spec_now(t2, outs), le, active, kk, log, fuel, fo, r)
            } else if gw.gateway_type == GatewayType::Parallel {
                spec_lists(d, p, sub, cbs, c, spec_fork(t2, outs), le, active, kk, log, fuel, fo, r)
            } else if gw.gateway_type != GatewayType::Inclusive {
                spec_lists(d, p, sub, cbs, c, t2, le, active, kk, log, fuel, fo, r)
            } else if gw.func_idx is None {
                &&& log.len() == 0
                &&& fo == fuel
                &&& r matches Err(RuntimeError::Engine(m))
                &&& m@ == "missing function "@ + spec_gateway_text(gw)
            } else if gw.func_idx->0 >= c.2 {
                &&& log.len() == 0
                &&& fo == fuel
                &&& r matches Err(RuntimeError::Engine(m))
                &&& m@ == "missing run_inclusive with index: "@ + crate::text::spec_decimal(gw.func_idx->0 as nat)
            } else {
                &&& log.len() >= 1
                &&& log[0] matches Answer::Inclusive(x)
                &&& exists|rv: Result<Vec<usize>, RuntimeError>| #[trigger] spec_inclusive_result(pd, gw, x, rv)
                    && match rv {
                        Ok(w) => spec_lists(d, p, sub, cbs, c, spec_fork(t2, w@), le, active, kk,
                            log.subrange(1, log.len() as int), fuel, fo, r),
                        Err(e) => log.len() == 1 && fo == fuel && r == Err::<usize, RuntimeError>(e),
                    }
            }
        }
    }
}

/// A run of process `p` of diagram `d` (a subprocess if `sub`) from its start event, with
/// `fuel`, over the answers `log`, ends with `r` and `fo` fuel left.
pub open spec fn spec_exec(d: Diagram, p: usize, sub: bool, cbs: Callbacks, c: Counts, log: Seq<Answer>, fuel: nat, fo: nat,
    r: Result<usize, RuntimeError>) -> bool
{
    let pd = d.data@[p as int];
    spec_rounds(d, p, sub, cbs, c, spec_fresh(pd.start), None, log, fuel, fo, r)
}

/// A token of list `kk` at index `j` walked over the answers `a` and went
/// on as the rest of the run says: the run from that token holds over `a`
/// followed by the rest of the answers.
proof fn lemma_token_step(d: Diagram, p: usize, sub: bool, cbs: Callbacks, c: Counts, t: TokenState, le: Option<usize>,
    act: Seq<Seq<usize>>, kk: nat, j: nat, a: Seq<Answer>, f: nat, f1: nat, ret: Result<Return, RuntimeError>,
    rest: Seq<Answer>, fo: nat, rr: Result<usize, RuntimeError>)
    requires
        kk < act.len(),
        j < act[kk as int].len(),
        f1 <= f,
        spec_walk(d, p, cbs, c, act[kk as int][j as int], a, f, f1, ret),
        match ret {
            Err(e) => rest.len() == 0 && fo == f1 && rr == Err::<usize, RuntimeError>(e),
            Ok(Return::Join(g)) => spec_tokens(d, p, sub, cbs, c, spec_consume(t, Some(g)), le, act, kk, j + 1, rest, f1, fo, rr),
            Ok(Return::End(e)) => if spec_stops(d.data@[p as int], e, sub) {
                rest.len() == 0 && fo == f1 && rr == Ok::<usize, RuntimeError>(e)
            } else {
                spec_tokens(d, p, sub, cbs, c, spec_consume(t, None), Some(e), act, kk, j + 1, rest, f1, fo, rr)
            },
            Ok(Return::Fork(v)) => spec_tokens(d, p, sub, cbs, c, spec_fork(t, v@), le, act, kk, j + 1, rest, f1, fo, rr),
        },
    ensures
        spec_tokens(d, p, sub, cbs, c, t, le, act, kk, j, a + rest, f, fo, rr),
{
    let ar = a + rest;
    assert(ar.subrange(0, a.len() as int) =~= a);
    assert(ar.subrange(a.len() as int, ar.len() as int) =~= rest);
    assert(spec_walk(d, p, cbs, c, act[kk as int][j as int], ar.subrange(0, a.len() as int), f, f1, ret));
    assert(spec_cut(a.len() as int, f1, ret));
}

/// The answers taken so far, then those of one more step, then the rest.
proof fn lemma_concat(before: Seq<Answer>, after: Seq<Answer>, l0: int, rest: Seq<Answer>)
    requires
        0 <= l0 <= before.len(),
        spec_extends(after, before),
    ensures
        before.subrange(l0, before.len() as int) + (after.subrange(before.len() as int, after.len() as int) + rest)
            == after.subrange(l0, after.len() as int) + rest,
{
    let bl = before.len() as int;
    let lhs = before.subrange(l0, bl) + (after.subrange(bl, after.len() as int) + rest);
    let rhs = after.subrange(l0, after.len() as int) + rest;
    assert forall|i: int| 0 <= i < lhs.len() implies lhs[i] == rhs[i] by {
        if i < bl - l0 {
            assert(before[l0 + i] == after.subrange(0, bl)[l0 + i]);
        }
    }
    assert(lhs =~= rhs);
}

/// `after` is `before` with more answers at the end.
pub open spec fn spec_extends(after: Seq<Answer>, before: Seq<Answer>) -> bool {
    after.len() >= before.len() && after.subrange(0, before.len() as int) == before
}

/// Extending is transitive.
proof fn lemma_extends_trans(a: Seq<Answer>, b: Seq<Answer>, c: Seq<Answer>)
    requires
        spec_extends(b, a),
        spec_extends(c, b),
    ensures
        spec_extends(c, a),
{
    assert(c.subrange(0, a.len() as int) =~= a) by {
        assert forall|i: int| 0 <= i < a.len() implies c.subrange(0, a.len() as int)[i] == a[i] by {
            assert(c[i] == c.subrange(0, b.len() as int)[i]);
            assert(b[i] == b.subrange(0, a.len() as int)[i]);
        }
    }
}

/// Where a step of a token ended.
pub enum Step {
    /// It goes on at this element.
    Go(usize),
    /// It stopped: forked, joined or ended.
    Stop(Return),
}

/// A step at element `cur` took the answers that `after` adds to `before`
/// (one if the element asks a registered function, else none) and went on or
/// stopped as `spec_go` and `spec_stop` say for that answer.
pub open spec fn spec_step_done(pd: ProcessData, cbs: Callbacks, c: Counts, cur: usize, before: Seq<Answer>,
    after: Seq<Answer>, r: Result<Step, RuntimeError>) -> bool
{
    let k: int = if spec_consumes(pd, cbs, c, cur) { 1 } else { 0 };
    let ans = if k == 1 { Some(after[before.len() as int]) } else { None };
    &&& after.len() == before.len() + k
    &&& match r {
        Ok(Step::Go(x)) => spec_go(pd, cbs, c, cur, ans) == Some(x),
        Ok(Step::Stop(ret)) => spec_go(pd, cbs, c, cur, ans) is None
            && spec_stop(pd, cbs, c, cur, ans, Ok::<Return, RuntimeError>(ret)),
        Err(e) => spec_go(pd, cbs, c, cur, ans) is None && spec_stop(pd, cbs, c, cur, ans, Err::<Return, RuntimeError>(e)),
    }
}

/// Two results of a token agree: both errors, or the same fork (by its
/// elements), join or end.
pub open spec fn spec_same_return(r1: Result<Return, RuntimeError>, r2: Result<Return, RuntimeError>) -> bool {
    match (r1, r2) {
        (Err(_), Err(_)) => true,
        (Ok(Return::Fork(v1)), Ok(Return::Fork(v2))) => v1@ == v2@,
        (Ok(Return::Join(a)), Ok(Return::Join(b))) => a == b,
        (Ok(Return::End(a)), Ok(Return::End(b))) => a == b,
        _ => false,
    }
}

/// Two results of a run agree: both errors, or the same end event.
pub open spec fn spec_same_end(r1: Result<usize, RuntimeError>, r2: Result<usize, RuntimeError>) -> bool {
    (r1 is Err && r2 is Err) || (r1 is Ok && r1 == r2)
}

/// `l1` is the start of `l2`.
pub open spec fn spec_prefix(l1: Seq<Answer>, l2: Seq<Answer>) -> bool {
    l1.len() <= l2.len() && l1 == l2.subrange(0, l1.len() as int)
}

/// What an inclusive gateway's answer leads to is determined by the answer.
proof fn lemma_inclusive_unique(pd: ProcessData, g: Gateway, x: Inclusive, r1: Result<Vec<usize>, RuntimeError>,
    r2: Result<Vec<usize>, RuntimeError>)
    requires
        spec_inclusive_result(pd, g, x, r1),
        spec_inclusive_result(pd, g, x, r2),
    ensures
        r1 is Ok <==> r2 is Ok,
        r1 is Ok ==> r1->Ok_0@ == r2->Ok_0@,
{
    if let Inclusive::Fork(vs) = x {
        if vs@.len() > 1 {
            assert forall|k: int| 0 <= k < vs@.len() implies crate::flows::spec_has_name(vs@, (#[trigger] vs@[k])@) by {
                assert(vs@[k]@ == vs@[k]@);
            }
            crate::engine::lemma_fork_ignores_duplicates(pd, g, vs@, vs@, r1, r2);
        }
    }
}

/// How a token stops at an element is determined by the answer it got.
proof fn lemma_stop_unique(pd: ProcessData, cbs: Callbacks, c: Counts, cur: usize, ans: Option<Answer>,
    r1: Result<Return, RuntimeError>, r2: Result<Return, RuntimeError>)
    requires
        spec_stop(pd, cbs, c, cur, ans, r1),
        spec_stop(pd, cbs, c, cur, ans, r2),
    ensures
        spec_same_return(r1, r2),
{
    reveal(spec_stop);
    if cur < pd.data@.len() {
        if let Bpmn::Gateway(g) = pd.data@[cur as int] {
            if let Some(Answer::Inclusive(x)) = ans {
                match (r1, r2) {
                    (Ok(Return::Fork(w1)), Ok(Return::Fork(w2))) => {
                        if spec_inclusive_result(pd, g, x, Ok(w1)) && spec_inclusive_result(pd, g, x, Ok(w2)) {
                            lemma_inclusive_unique(pd, g, x, Ok(w1), Ok(w2));
                        }
                    },
                    (Ok(Return::Fork(w1)), Err(e2)) => {
                        if spec_inclusive_result(pd, g, x, Ok(w1)) && spec_inclusive_result(pd, g, x, Err(e2)) {
                            lemma_inclusive_unique(pd, g, x, Ok(w1), Err(e2));
                        }
                    },
                    (Err(e1), Ok(Return::Fork(w2))) => {
                        if spec_inclusive_result(pd, g, x, Err(e1)) && spec_inclusive_result(pd, g, x, Ok(w2)) {
                            lemma_inclusive_unique(pd, g, x, Err(e1), Ok(w2));
                        }
                    },
                    _ => {},
                }
            }
        }
    }
}

/// A token leaves a subprocess that ended at an end event with a cancel,
/// compensation, error, escalation, message or signal symbol through the
/// boundary event registered for the activity, that symbol and that name;
/// after any other end event, by the activity's only output.
pub proof fn lemma_subprocess_leaves_by_boundary(pd: ProcessData, a: Activity, ev: Event)
    ensures
        ev.event_type == EventType::End && ev.symbol is Some && (ev.symbol->0 == Symbol::Cancel
            || ev.symbol->0 == Symbol::Compensation || ev.symbol->0 == Symbol::Error
            || ev.symbol->0 == Symbol::Escalation || ev.symbol->0 == Symbol::Message
            || ev.symbol->0 == Symbol::Signal) ==>
            spec_sub_go(pd, a, ev) == spec_last_boundary(pd.events.boundaries@, a.id.local_id, ev.symbol->0, opt_view(ev.name)),
        !(ev.event_type == EventType::End && ev.symbol is Some) || ev.symbol->0 == Symbol::Conditional
            || ev.symbol->0 == Symbol::Link || ev.symbol->0 == Symbol::Terminate || ev.symbol->0 == Symbol::Timer ==>
            spec_sub_go(pd, a, ev) == spec_out_go(a.outputs),
{
}

/// The cut that a token at the subprocess element `cur` takes, as `spec_walk` states it.
spec fn spec_sub_cut(d: Diagram, p: usize, cbs: Callbacks, c: Counts, cur: usize, log: Seq<Answer>, fuel: nat,
    fo: nat, r: Result<Return, RuntimeError>, i: int, fs: nat, er: Result<usize, RuntimeError>) -> bool
{
    let pd = d.data@[p as int];
    let a = pd.data@[cur as int]->Activity_0;
    let sub = a.data_index->0;
    0 <= i <= log.len() && fs <= fuel - 1
    && spec_rounds(d, sub, true, cbs, c, spec_fresh(d.data@[sub as int].start), None,
        log.subrange(0, i), (fuel - 1) as nat, fs, er)
    && match er {
        Err(e) => i == log.len() && fo == fs && r == Err::<Return, RuntimeError>(e),
        Ok(end) => if end < d.data@[sub as int].data@.len() && d.data@[sub as int].data@[end as int] is Event {
            let ev = d.data@[sub as int].data@[end as int]->Event_0;
            match spec_sub_go(pd, a, ev) {
                Some(b) => spec_walk(d, p, cbs, c, b, log.subrange(i, log.len() as int), fs, fo, r),
                None => i == log.len() && fo == fs && spec_sub_stop(pd, a, ev, r),
            }
        } else {
            i == log.len() && fo == fs && spec_missing_sub(a, r)
        },
    }
}

/// The cut that token `j` of list `kk` takes, as `spec_tokens` states it.
spec fn spec_token_cut(d: Diagram, p: usize, sub: bool, cbs: Callbacks, c: Counts, t: TokenState, le: Option<usize>,
    active: Seq<Seq<usize>>, kk: nat, j: nat, log: Seq<Answer>, fuel: nat, fo: nat, r: Result<usize, RuntimeError>,
    i: int, f1: nat, ret: Result<Return, RuntimeError>) -> bool
{
    let pd = d.data@[p as int];
    0 <= i <= log.len() && f1 <= fuel
    && spec_walk(d, p, cbs, c, active[kk as int][j as int], log.subrange(0, i), fuel, f1, ret)
    && match ret {
        Err(e) => i == log.len() && fo == f1 && r == Err::<usize, RuntimeError>(e),
        Ok(Return::Join(g)) => spec_tokens(d, p, sub, cbs, c, spec_consume(t, Some(g)), le, active, kk, j + 1,
            log.subrange(i, log.len() as int), f1, fo, r),
        Ok(Return::End(e)) => if spec_stops(pd, e, sub) {
            i == log.len() && fo == f1 && r == Ok::<usize, RuntimeError>(e)
        } else {
            spec_tokens(d, p, sub, cbs, c, spec_consume(t, None), Some(e), active, kk, j + 1,
                log.subrange(i, log.len() as int), f1, fo, r)
        },
        Ok(Return::Fork(v)) => spec_tokens(d, p, sub, cbs, c, spec_fork(t, v@), le, active, kk, j + 1,
            log.subrange(i, log.len() as int), f1, fo, r),
    }
}

/// The starts of two answer logs cut at `i1 <= i2`, of which the first is the
/// start of the second, are starts of one another, and so are the rests.
proof fn lemma_prefix_cut(l1: Seq<Answer>, l2: Seq<Answer>, i1: int, i2: int)
    requires
        spec_prefix(l1, l2),
        0 <= i1 <= l1.len(),
        0 <= i2 <= l2.len(),
    ensures
        i1 <= i2 ==> spec_prefix(l1.subrange(0, i1), l2.subrange(0, i2)),
        i2 <= i1 ==> spec_prefix(l2.subrange(0, i2), l1.subrange(0, i1)),
        i1 == i2 ==> spec_prefix(l1.subrange(i1, l1.len() as int), l2.subrange(i2, l2.len() as int)),
{
    if i1 <= i2 {
        assert(l1.subrange(0, i1) =~= l2.subrange(0, i2).subrange(0, i1));
    }
    if i2 <= i1 {
        assert(l2.subrange(0, i2) =~= l1.subrange(0, i1).subrange(0, i2));
    }
    if i1 == i2 {
        let a = l1.subrange(i1, l1.len() as int);
        let b = l2.subrange(i2, l2.len() as int);
        assert forall|k: int| 0 <= k < a.len() implies a[k] == b.subrange(0, a.len() as int)[k] by {
            assert(l1[i1 + k] == l2.subrange(0, l1.len() as int)[i1 + k]);
        }
        assert(a =~= b.subrange(0, a.len() as int));
    }
}

/// A token walk is decided by its answers: of two walks over a log and over
/// a longer log that starts with it, the logs are the same, and so are the
/// fuel left and the result.
proof fn lemma_walk_unique(d: Diagram, p: usize, cbs: Callbacks, c: Counts, cur: usize, l1: Seq<Answer>,
    l2: Seq<Answer>, fuel: nat, fo1: nat, fo2: nat, r1: Result<Return, RuntimeError>, r2: Result<Return, RuntimeError>)
    requires
        spec_walk(d, p, cbs, c, cur, l1, fuel, fo1, r1),
        spec_walk(d, p, cbs, c, cur, l2, fuel, fo2, r2),
        spec_prefix(l1, l2),
    ensures
        l1.len() == l2.len(),
        fo1 == fo2,
        spec_same_return(r1, r2),
    decreases p, fuel, 0nat, 0nat, 0nat,
{
    let pd = d.data@[p as int];
    if fuel == 0 || cur >= pd.data@.len() {
    } else if spec_open(pd, cur) {
        let a = pd.data@[cur as int]->Activity_0;
        if let Some(sub) = a.data_index {
            let (i1, fs1, er1) = choose|i: int, fs: nat, er: Result<usize, RuntimeError>|
                spec_cut(i, fs, er) && spec_sub_cut(d, p, cbs, c, cur, l1, fuel, fo1, r1, i, fs, er);
            let (i2, fs2, er2) = choose|i: int, fs: nat, er: Result<usize, RuntimeError>|
                spec_cut(i, fs, er) && spec_sub_cut(d, p, cbs, c, cur, l2, fuel, fo2, r2, i, fs, er);
            let st = spec_fresh(d.data@[sub as int].start);
            let f = (fuel - 1) as nat;
            lemma_prefix_cut(l1, l2, i1, i2);
            if i1 <= i2 {
                lemma_rounds_unique(d, sub, true, cbs, c, st, None, l1.subrange(0, i1), l2.subrange(0, i2), f,
                    fs1, fs2, er1, er2);
            } else {
                lemma_rounds_unique(d, sub, true, cbs, c, st, None, l2.subrange(0, i2), l1.subrange(0, i1), f,
                    fs2, fs1, er2, er1);
            }
            lemma_prefix_cut(l1, l2, i1, i2);
            if let Ok(end) = er1 {
                if end < d.data@[sub as int].data@.len() && d.data@[sub as int].data@[end as int] is Event {
                    let ev = d.data@[sub as int].data@[end as int]->Event_0;
                    if let Some(b) = spec_sub_go(pd, a, ev) {
                        lemma_walk_unique(d, p, cbs, c, b, l1.subrange(i1, l1.len() as int),
                            l2.subrange(i2, l2.len() as int), fs1, fo1, fo2, r1, r2);
                    }
                }
            }
        }
    } else {
        let k: int = if spec_consumes(pd, cbs, c, cur) { 1 } else { 0 };
        if k == 1 {
            assert(l1[0] == l2.subrange(0, l1.len() as int)[0]);
        }
        let ans = if k == 1 && l1.len() >= 1 { Some(l1[0]) } else { None };
        match spec_go(pd, cbs, c, cur, ans) {
            Some(n) => {
                lemma_prefix_cut(l1, l2, k, k);
                lemma_walk_unique(d, p, cbs, c, n, l1.subrange(k, l1.len() as int), l2.subrange(k, l2.len() as int),
                    (fuel - 1) as nat, fo1, fo2, r1, r2);
            },
            None => {
                lemma_stop_unique(pd, cbs, c, cur, ans, r1, r2);
            },
        }
    }
}

/// A run from a token state is decided by its answers (see `lemma_walk_unique`).
proof fn lemma_rounds_unique(d: Diagram, p: usize, sub: bool, cbs: Callbacks, c: Counts, t: TokenState,
    le: Option<usize>, l1: Seq<Answer>, l2: Seq<Answer>, fuel: nat, fo1: nat, fo2: nat,
    r1: Result<usize, RuntimeError>, r2: Result<usize, RuntimeError>)
    requires
        spec_rounds(d, p, sub, cbs, c, t, le, l1, fuel, fo1, r1),
        spec_rounds(d, p, sub, cbs, c, t, le, l2, fuel, fo2, r2),
        spec_prefix(l1, l2),
    ensures
        l1.len() == l2.len(),
        fo1 == fo2,
        spec_same_end(r1, r2),
    decreases p, fuel, 0nat, 0nat, 0nat,
{
    if fuel > 0 && t.ready.len() > 0 {
        lemma_lists_unique(d, p, sub, cbs, c, spec_take(t), le, t.ready, t.ready.len(), l1, l2, (fuel - 1) as nat,
            fo1, fo2, r1, r2);
    }
}

proof fn lemma_lists_unique(d: Diagram, p: usize, sub: bool, cbs: Callbacks, c: Counts, t: TokenState,
    le: Option<usize>, active: Seq<Seq<usize>>, k: nat, l1: Seq<Answer>, l2: Seq<Answer>, fuel: nat, fo1: nat,
    fo2: nat, r1: Result<usize, RuntimeError>, r2: Result<usize, RuntimeError>)
    requires
        spec_lists(d, p, sub, cbs, c, t, le, active, k, l1, fuel, fo1, r1),
        spec_lists(d, p, sub, cbs, c, t, le, active, k, l2, fuel, fo2, r2),
        spec_prefix(l1, l2),
    ensures
        l1.len() == l2.len(),
        fo1 == fo2,
        spec_same_end(r1, r2),
    decreases p, fuel, 1nat, k, 0nat,
{
    if k == 0 {
        lemma_rounds_unique(d, p, sub, cbs, c, spec_commit(t), le, l1, l2, fuel, fo1, fo2, r1, r2);
    } else {
        lemma_tokens_unique(d, p, sub, cbs, c, t, le, active, (k - 1) as nat, 0, l1, l2, fuel, fo1, fo2, r1, r2);
    }
}

proof fn lemma_tokens_unique(d: Diagram, p: usize, sub: bool, cbs: Callbacks, c: Counts, t: TokenState,
    le: Option<usize>, active: Seq<Seq<usize>>, kk: nat, j: nat, l1: Seq<Answer>, l2: Seq<Answer>, fuel: nat,
    fo1: nat, fo2: nat, r1: Result<usize, RuntimeError>, r2: Result<usize, RuntimeError>)
    requires
        spec_tokens(d, p, sub, cbs, c, t, le, active, kk, j, l1, fuel, fo1, r1),
        spec_tokens(d, p, sub, cbs, c, t, le, active, kk, j, l2, fuel, fo2, r2),
        spec_prefix(l1, l2),
    ensures
        l1.len() == l2.len(),
        fo1 == fo2,
        spec_same_end(r1, r2),
    decreases p, fuel, 1nat, kk, (if kk < active.len() && j <= active[kk as int].len() { active[kk as int].len() - j + 2 } else { 0 }),
{
    if kk >= active.len() || j > active[kk as int].len() {
    } else if j == active[kk as int].len() {
        lemma_close_unique(d, p, sub, cbs, c, t, le, active, kk, l1, l2, fuel, fo1, fo2, r1, r2);
    } else {
        let (i1, g1, ret1) = choose|i: int, f1: nat, ret: Result<Return, RuntimeError>|
            spec_cut(i, f1, ret) && spec_token_cut(d, p, sub, cbs, c, t, le, active, kk, j, l1, fuel, fo1, r1, i, f1, ret);
        let (i2, g2, ret2) = choose|i: int, f1: nat, ret: Result<Return, RuntimeError>|
            spec_cut(i, f1, ret) && spec_token_cut(d, p, sub, cbs, c, t, le, active, kk, j, l2, fuel, fo2, r2, i, f1, ret);
        let x = active[kk as int][j as int];
        lemma_prefix_cut(l1, l2, i1, i2);
        if i1 <= i2 {
            lemma_walk_unique(d, p, cbs, c, x, l1.subrange(0, i1), l2.subrange(0, i2), fuel, g1, g2, ret1, ret2);
        } else {
            lemma_walk_unique(d, p, cbs, c, x, l2.subrange(0, i2), l1.subrange(0, i1), fuel, g2, g1, ret2, ret1);
        }
        lemma_prefix_cut(l1, l2, i1, i2);
        let rest1 = l1.subrange(i1, l1.len() as int);
        let rest2 = l2.subrange(i2, l2.len() as int);
        match (ret1, ret2) {
            (Ok(Return::Join(g)), _) => {
                lemma_tokens_unique(d, p, sub, cbs, c, spec_consume(t, Some(g)), le, active, kk, j + 1, rest1, rest2,
                    g1, fo1, fo2, r1, r2);
            },
            (Ok(Return::End(e)), _) => {
                if !spec_stops(d.data@[p as int], e, sub) {
                    lemma_tokens_unique(d, p, sub, cbs, c, spec_consume(t, None), Some(e), active, kk, j + 1, rest1,
                        rest2, g1, fo1, fo2, r1, r2);
                }
            },
            (Ok(Return::Fork(v1)), Ok(Return::Fork(v2))) => {
                lemma_tokens_unique(d, p, sub, cbs, c, spec_fork(t, v1@), le, active, kk, j + 1, rest1, rest2,
                    g1, fo1, fo2, r1, r2);
            },
            _ => {},
        }
    }
}

proof fn lemma_close_unique(d: Diagram, p: usize, sub: bool, cbs: Callbacks, c: Counts, t: TokenState,
    le: Option<usize>, active: Seq<Seq<usize>>, kk: nat, l1: Seq<Answer>, l2: Seq<Answer>, fuel: nat,
    fo1: nat, fo2: nat, r1: Result<usize, RuntimeError>, r2: Result<usize, RuntimeError>)
    requires
        spec_close(d, p, sub, cbs, c, t, le, active, kk, l1, fuel, fo1, r1),
        spec_close(d, p, sub, cbs, c, t, le, active, kk, l2, fuel, fo2, r2),
        spec_prefix(l1, l2),
    ensures
        l1.len() == l2.len(),
        fo1 == fo2,
        spec_same_end(r1, r2),
    decreases p, fuel, 1nat, kk, 1nat,
{
    let pd = d.data@[p as int];
    let g = t.groups;
    if !(g.len() > 0 && g.last().0 <= g.last().2) {
        lemma_lists_unique(d, p, sub, cbs, c, t, le, active, kk, l1, l2, fuel, fo1, fo2, r1, r2);
    } else {
        let joined = g.last().1;
        let t2 = spec_pop(t);
        if crate::tokens::spec_too_few_tokens(pd, joined) || !crate::tokens::spec_all_same(joined) {
        } else if joined.len() == 0 || joined[0] >= pd.data@.len() || !(pd.data@[joined[0] as int] is Gateway) {
            lemma_lists_unique(d, p, sub, cbs, c, t2, le, active, kk, l1, l2, fuel, fo1, fo2, r1, r2);
        } else {
            let gw = pd.data@[joined[0] as int]->Gateway_0;
            let outs = gw.outputs.local_ids@;
            if (gw.gateway_type == GatewayType::Parallel || gw.gateway_type == GatewayType::Inclusive) && outs.len() == 1 {
                lemma_lists_unique(d, p, sub, cbs, c, spec_now(t2, outs), le, active, kk, l1, l2, fuel, fo1, fo2, r1, r2);
            } else if gw.gateway_type == GatewayType::Parallel {
                lemma_lists_unique(d, p, sub, cbs, c, spec_fork(t2, outs), le, active, kk, l1, l2, fuel, fo1, fo2, r1, r2);
            } else if gw.gateway_type != GatewayType::Inclusive {
                lemma_lists_unique(d, p, sub, cbs, c, t2, le, active, kk, l1, l2, fuel, fo1, fo2, r1, r2);
            } else if gw.func_idx is None || gw.func_idx->0 >= c.2 {
            } else {
                assert(l1[0] == l2.subrange(0, l1.len() as int)[0]);
                let x = l1[0]->Inclusive_0;
                let rv1 = choose|rv: Result<Vec<usize>, RuntimeError>| #[trigger] spec_inclusive_result(pd, gw, x, rv)
                    && match rv {
                        Ok(w) => spec_lists(d, p, sub, cbs, c, spec_fork(t2, w@), le, active, kk,
                            l1.subrange(1, l1.len() as int), fuel, fo1, r1),
                        Err(e) => l1.len() == 1 && fo1 == fuel && r1 == Err::<usize, RuntimeError>(e),
                    };
                let rv2 = choose|rv: Result<Vec<usize>, RuntimeError>| #[trigger] spec_inclusive_result(pd, gw, x, rv)
                    && match rv {
                        Ok(w) => spec_lists(d, p, sub, cbs, c, spec_fork(t2, w@), le, active, kk,
                            l2.subrange(1, l2.len() as int), fuel, fo2, r2),
                        Err(e) => l2.len() == 1 && fo2 == fuel && r2 == Err::<usize, RuntimeError>(e),
                    };
                lemma_inclusive_unique(pd, gw, x, rv1, rv2);
                if let Ok(w1) = rv1 {
                    lemma_prefix_cut(l1, l2, 1, 1);
                    lemma_lists_unique(d, p, sub, cbs, c, spec_fork(t2, w1@), le, active, kk,
                        l1.subrange(1, l1.len() as int), l2.subrange(1, l2.len() as int), fuel, fo1, fo2, r1, r2);
                }
            }
        }
    }
}

/// The answers decide the run: two runs of a process over the same answers
/// of its functions, with the same fuel, end alike (at the same end event, or
/// both with an error) and leave the same fuel.
pub proof fn lemma_answers_decide_run(d: Diagram, p: usize, sub: bool, cbs: Callbacks, c: Counts, log: Seq<Answer>,
    fuel: nat, fo1: nat, fo2: nat, r1: Result<usize, RuntimeError>, r2: Result<usize, RuntimeError>)
    requires
        spec_exec(d, p, sub, cbs, c, log, fuel, fo1, r1),
        spec_exec(d, p, sub, cbs, c, log, fuel, fo2, r2),
    ensures
        fo1 == fo2,
        spec_same_end(r1, r2),
{
    assert(log.subrange(0, log.len() as int) =~= log);
    lemma_rounds_unique(d, p, sub, cbs, c, spec_fresh(d.data@[p as int].start), None, log, log, fuel, fo1, fo2, r1, r2);
}

/// A token that reaches a terminate or error end event ends the run at once,
/// with that event: of the answers left, it takes its own and no token or
/// round after it runs, so the run ends with the fuel the token left.
pub proof fn lemma_stop_event_ends_run(d: Diagram, p: usize, sub: bool, cbs: Callbacks, c: Counts, t: TokenState,
    le: Option<usize>, active: Seq<Seq<usize>>, kk: nat, j: nat, log: Seq<Answer>, own: Seq<Answer>, fuel: nat,
    f1: nat, e: usize, fo: nat, r: Result<usize, RuntimeError>)
    requires
        kk < active.len(),
        j < active[kk as int].len(),
        e < d.data@[p as int].data@.len(),
        (d.data@[p as int].data@[e as int] matches Bpmn::Event(ev)
            && (ev.symbol == Some(Symbol::Terminate) || ev.symbol == Some(Symbol::Error))),
        spec_prefix(own, log),
        spec_walk(d, p, cbs, c, active[kk as int][j as int], own, fuel, f1, Ok::<Return, RuntimeError>(Return::End(e))),
        spec_tokens(d, p, sub, cbs, c, t, le, active, kk, j, log, fuel, fo, r),
    ensures
        own == log,
        fo == f1,
        r == Ok::<usize, RuntimeError>(e),
{
    let (i, g, ret) = choose|i: int, f: nat, ret: Result<Return, RuntimeError>|
        spec_cut(i, f, ret) && spec_token_cut(d, p, sub, cbs, c, t, le, active, kk, j, log, fuel, fo, r, i, f, ret);
    let x = active[kk as int][j as int];
    let cut = log.subrange(0, i);
    if own.len() <= i {
        assert(own =~= cut.subrange(0, own.len() as int));
        lemma_walk_unique(d, p, cbs, c, x, own, cut, fuel, f1, g, Ok::<Return, RuntimeError>(Return::End(e)), ret);
    } else {
        assert(cut =~= own.subrange(0, i));
        lemma_walk_unique(d, p, cbs, c, x, cut, own, fuel, g, f1, ret, Ok::<Return, RuntimeError>(Return::End(e)));
    }
    assert(own =~= log);
}

/// Without an answer, a token stops at an end event only at that event, and
/// nothing else is a result there.
proof fn lemma_stop_end(pd: ProcessData, cbs: Callbacks, c: Counts, x: usize, e: usize, r: Result<Return, RuntimeError>)
    ensures
        spec_stop(pd, cbs, c, x, None, Ok::<Return, RuntimeError>(Return::End(e))) ==> e == x,
        spec_stop(pd, cbs, c, x, None, Ok::<Return, RuntimeError>(Return::End(x))) && spec_stop(pd, cbs, c, x, None, r)
            ==> r == Ok::<Return, RuntimeError>(Return::End(x)),
{
    reveal(spec_stop);
}

/// A step at element `cur`, taken with `fin` fuel and leaving `fout`, where
/// `after` is the answer log after it and `before` the log before: a step at
/// any element but a subprocess is as `spec_step_done` says and uses no
/// fuel; a subprocess runs as `spec_exec` says over the answers it took,
/// and the token goes on as its end event leads.
pub open spec fn spec_step_rel(d: Diagram, p: usize, cbs: Callbacks, c: Counts, cur: usize, before: Seq<Answer>,
    after: Seq<Answer>, fin: nat, fout: nat, r: Result<Step, RuntimeError>) -> bool
{
    let pd = d.data@[p as int];
    if !spec_open(pd, cur) {
        spec_step_done(pd, cbs, c, cur, before, after, r) && fout == fin
    } else {
        let a = pd.data@[cur as int]->Activity_0;
        let seg = after.subrange(before.len() as int, after.len() as int);
        &&& after.len() >= before.len()
        &&& match a.data_index {
            None => seg.len() == 0 && fout == fin && (r matches Err(e) && spec_missing_sub(a, Err::<Return, RuntimeError>(e))),
            Some(sub) => sub < p && sub < d.data@.len() && fout <= fin && exists|er: Result<usize, RuntimeError>|
                #[trigger] spec_rounds(d, sub, true, cbs, c, spec_fresh(d.data@[sub as int].start), None, seg, fin, fout, er)
                && match er {
                    Err(e) => r == Err::<Step, RuntimeError>(e),
                    Ok(end) => if end < d.data@[sub as int].data@.len() && d.data@[sub as int].data@[end as int] is Event {
                        let ev = d.data@[sub as int].data@[end as int]->Event_0;
                        match spec_sub_go(pd, a, ev) {
                            Some(x) => r == Ok::<Step, RuntimeError>(Step::Go(x)),
                            None => (r matches Ok(Step::Stop(ret)) && spec_sub_stop(pd, a, ev, Ok::<Return, RuntimeError>(ret)))
                                || (r matches Err(e) && spec_sub_stop(pd, a, ev, Err::<Return, RuntimeError>(e))),
                        }
                    } else {
                        r matches Err(e) && spec_missing_sub(a, Err::<Return, RuntimeError>(e))
                    },
                },
        }
    }
}

/// A step that stopped is a whole walk from its element.
proof fn lemma_step_walk(d: Diagram, p: usize, cbs: Callbacks, c: Counts, cur: usize, before: Seq<Answer>,
    after: Seq<Answer>, f: nat, f1: nat, s: Result<Step, RuntimeError>, r: Result<Return, RuntimeError>)
    requires
        f > 0,
        cur < d.data@[p as int].data@.len(),
        spec_extends(after, before),
        spec_step_rel(d, p, cbs, c, cur, before, after, (f - 1) as nat, f1, s),
        (s matches Ok(Step::Stop(ret)) && r == Ok::<Return, RuntimeError>(ret))
            || (s matches Err(e) && r == Err::<Return, RuntimeError>(e)),
    ensures
        spec_walk(d, p, cbs, c, cur, after.subrange(before.len() as int, after.len() as int), f, f1, r),
{
    let pd = d.data@[p as int];
    let a = after.subrange(before.len() as int, after.len() as int);
    if !spec_open(pd, cur) {
        if spec_consumes(pd, cbs, c, cur) {
            assert(a[0] == after[before.len() as int]);
        }
    } else {
        let act = pd.data@[cur as int]->Activity_0;
        if let Some(sub) = act.data_index {
            let er = choose|er: Result<usize, RuntimeError>|
                #[trigger] spec_rounds(d, sub, true, cbs, c, spec_fresh(d.data@[sub as int].start), None, a, (f - 1) as nat, f1, er)
                && match er {
                    Err(e) => s == Err::<Step, RuntimeError>(e),
                    Ok(end) => if end < d.data@[sub as int].data@.len() && d.data@[sub as int].data@[end as int] is Event {
                        let ev = d.data@[sub as int].data@[end as int]->Event_0;
                        match spec_sub_go(pd, act, ev) {
                            Some(x) => s == Ok::<Step, RuntimeError>(Step::Go(x)),
                            None => (s matches Ok(Step::Stop(ret)) && spec_sub_stop(pd, act, ev, Ok::<Return, RuntimeError>(ret)))
                                || (s matches Err(e) && spec_sub_stop(pd, act, ev, Err::<Return, RuntimeError>(e))),
                        }
                    } else {
                        s matches Err(e) && spec_missing_sub(act, Err::<Return, RuntimeError>(e))
                    },
                };
            assert(a.subrange(0, a.len() as int) =~= a);
            assert(a.subrange(a.len() as int, a.len() as int) =~= Seq::<Answer>::empty());
            assert(spec_rounds(d, sub, true, cbs, c, spec_fresh(d.data@[sub as int].start), None, a.subrange(0, a.len() as int),
                (f - 1) as nat, f1, er));
            assert(spec_cut(a.len() as int, f1, er));
        }
    }
}

/// A step that went on to `x` carries the walk from `x` back to the start.
proof fn lemma_walk_go(d: Diagram, p: usize, cbs: Callbacks, c: Counts, start: usize, cur: usize, x: usize,
    before: Seq<Answer>, after: Seq<Answer>, l0: int, f: nat, f1: nat, f0: nat)
    requires
        f > 0,
        cur < d.data@[p as int].data@.len(),
        0 <= l0 <= before.len(),
        spec_extends(after, before),
        spec_step_rel(d, p, cbs, c, cur, before, after, (f - 1) as nat, f1, Ok::<Step, RuntimeError>(Step::Go(x))),
        forall|rest: Seq<Answer>, fo: nat, rr: Result<Return, RuntimeError>|
            #[trigger] spec_walk(d, p, cbs, c, cur, rest, f, fo, rr) ==>
            spec_walk(d, p, cbs, c, start, before.subrange(l0, before.len() as int) + rest, f0, fo, rr),
    ensures
        forall|rest: Seq<Answer>, fo: nat, rr: Result<Return, RuntimeError>|
            #[trigger] spec_walk(d, p, cbs, c, x, rest, f1, fo, rr) ==>
            spec_walk(d, p, cbs, c, start, after.subrange(l0, after.len() as int) + rest, f0, fo, rr),
{
    let pd = d.data@[p as int];
    let bl = before.len() as int;
    let a = after.subrange(bl, after.len() as int);
    assert forall|rest: Seq<Answer>, fo: nat, rr: Result<Return, RuntimeError>|
        #[trigger] spec_walk(d, p, cbs, c, x, rest, f1, fo, rr) implies
        spec_walk(d, p, cbs, c, start, after.subrange(l0, after.len() as int) + rest, f0, fo, rr) by {
        let ar = a + rest;
        assert(ar.subrange(0, a.len() as int) =~= a);
        assert(ar.subrange(a.len() as int, ar.len() as int) =~= rest);
        if !spec_open(pd, cur) {
            let k: int = if spec_consumes(pd, cbs, c, cur) { 1 } else { 0 };
            if k == 1 {
                assert(ar[0] == after[bl]);
            }
            assert(ar.subrange(k, ar.len() as int) =~= rest);
        } else {
            let act = pd.data@[cur as int]->Activity_0;
            let sub = act.data_index->0;
            let er = choose|er: Result<usize, RuntimeError>|
                #[trigger] spec_rounds(d, sub, true, cbs, c, spec_fresh(d.data@[sub as int].start), None, a, (f - 1) as nat, f1, er)
                && match er {
                    Err(e) => Ok::<Step, RuntimeError>(Step::Go(x)) == Err::<Step, RuntimeError>(e),
                    Ok(end) => if end < d.data@[sub as int].data@.len() && d.data@[sub as int].data@[end as int] is Event {
                        let ev = d.data@[sub as int].data@[end as int]->Event_0;
                        match spec_sub_go(pd, act, ev) {
                            Some(y) => Ok::<Step, RuntimeError>(Step::Go(x)) == Ok::<Step, RuntimeError>(Step::Go(y)),
                            None => false,
                        }
                    } else {
                        false
                    },
                };
            assert(spec_rounds(d, sub, true, cbs, c, spec_fresh(d.data@[sub as int].start), None, ar.subrange(0, a.len() as int),
                (f - 1) as nat, f1, er));
            assert(spec_cut(a.len() as int, f1, er));
        }
        assert(spec_walk(d, p, cbs, c, cur, ar, f, fo, rr));
        lemma_concat(before, after, l0, rest);
    }
}

/// A walk that ended at `cur` with `r` is a walk from the start.
proof fn lemma_walk_done(d: Diagram, p: usize, cbs: Callbacks, c: Counts, start: usize, cur: usize,
    before: Seq<Answer>, after: Seq<Answer>, l0: int, f: nat, f0: nat, fo: nat, r: Result<Return, RuntimeError>)
    requires
        0 <= l0 <= before.len(),
        spec_extends(after, before),
        forall|rest: Seq<Answer>, fo: nat, rr: Result<Return, RuntimeError>|
            #[trigger] spec_walk(d, p, cbs, c, cur, rest, f, fo, rr) ==>
            spec_walk(d, p, cbs, c, start, before.subrange(l0, before.len() as int) + rest, f0, fo, rr),
        spec_walk(d, p, cbs, c, cur, after.subrange(before.len() as int, after.len() as int), f, fo, r),
    ensures
        spec_walk(d, p, cbs, c, start, after.subrange(l0, after.len() as int), f0, fo, r),
{
    let a = after.subrange(before.len() as int, after.len() as int);
    lemma_concat(before, after, l0, Seq::<Answer>::empty());
    assert(a + Seq::<Answer>::empty() =~= a);
    assert(after.subrange(l0, after.len() as int) + Seq::<Answer>::empty() =~= after.subrange(l0, after.len() as int));
}

proof fn lemma_first_flow_minimal(pd: ProcessData, outputs: Seq<usize>, search: Seq<char>, i0: int)
    requires
        0 <= i0 < outputs.len(),
        spec_flow_matches(pd, outputs[i0], search),
    ensures
        exists|i: int| 0 <= i < outputs.len() && #[trigger] spec_flow_matches(pd, outputs[i], search)
            && forall|j: int| 0 <= j < i ==> !spec_flow_matches(pd, #[trigger] outputs[j], search),
    decreases i0,
{
    if exists|j: int| 0 <= j < i0 && #[trigger] spec_flow_matches(pd, outputs[j], search) {
        let j = choose|j: int| 0 <= j < i0 && #[trigger] spec_flow_matches(pd, outputs[j], search);
        lemma_first_flow_minimal(pd, outputs, search, j);
    } else {
        assert(forall|j: int| 0 <= j < i0 ==> !spec_flow_matches(pd, #[trigger] outputs[j], search));
    }
}

proof fn lemma_first_flow_within(pd: ProcessData, outputs: Seq<usize>, search: Seq<char>)
    ensures
        spec_first_flow(pd, outputs, search) matches Some(v) ==> v < pd.data@.len(),
{
    if exists|i: int| 0 <= i < outputs.len() && #[trigger] spec_flow_matches(pd, outputs[i], search) {
        let i0 = choose|i: int| 0 <= i < outputs.len() && #[trigger] spec_flow_matches(pd, outputs[i], search);
        lemma_first_flow_minimal(pd, outputs, search, i0);
    }
}

proof fn lemma_first_catch_minimal(pd: ProcessData, outputs: Seq<usize>, name: Seq<char>, symbol: Symbol, i0: int)
    requires
        0 <= i0 < outputs.len(),
        spec_catches(pd, outputs[i0], name, symbol),
    ensures
        exists|i: int| 0 <= i < outputs.len() && #[trigger] spec_catches(pd, outputs[i], name, symbol)
            && forall|j: int| 0 <= j < i ==> !spec_catches(pd, #[trigger] outputs[j], name, symbol),
    decreases i0,
{
    if exists|j: int| 0 <= j < i0 && #[trigger] spec_catches(pd, outputs[j], name, symbol) {
        let j = choose|j: int| 0 <= j < i0 && #[trigger] spec_catches(pd, outputs[j], name, symbol);
        lemma_first_catch_minimal(pd, outputs, name, symbol, j);
    } else {
        assert(forall|j: int| 0 <= j < i0 ==> !spec_catches(pd, #[trigger] outputs[j], name, symbol));
    }
}

proof fn lemma_first_catch_within(pd: ProcessData, outputs: Seq<usize>, name: Seq<char>, symbol: Symbol)
    ensures
        spec_first_catch(pd, outputs, name, symbol) matches Some(v) ==> v < pd.data@.len(),
{
    if exists|i: int| 0 <= i < outputs.len() && #[trigger] spec_catches(pd, outputs[i], name, symbol) {
        let i0 = choose|i: int| 0 <= i < outputs.len() && #[trigger] spec_catches(pd, outputs[i], name, symbol);
        lemma_first_catch_minimal(pd, outputs, name, symbol, i0);
    }
}

proof fn lemma_joins_after_consume(before: ExecuteHandler, after: ExecuteHandler, pd: ProcessData, join: Option<usize>)
    requires
        spec_joins_ok(before, pd),
        join matches Some(g) ==> spec_is_join(pd, g),
        after.token_stack@.len() == before.token_stack@.len(),
        before.token_stack@.len() == 0 ==> after.token_stack == before.token_stack,
        before.token_stack@.len() > 0 ==> {
            &&& after.token_stack@.drop_last() == before.token_stack@.drop_last()
            &&& after.token_stack@.last().joined@ == match join {
                Some(g) => before.token_stack@.last().joined@.push(g),
                None => before.token_stack@.last().joined@,
            }
        },
    ensures
        spec_joins_ok(after, pd),
{
    assert forall|k: int, j: int| 0 <= k < after.token_stack@.len() && 0 <= j < after.token_stack@[k].joined@.len()
        implies spec_is_join(pd, #[trigger] after.token_stack@[k].joined@[j]) by {
        let last = before.token_stack@.len() - 1;
        if k < last {
            assert(after.token_stack@[k] == after.token_stack@.drop_last()[k]);
            assert(before.token_stack@[k] == before.token_stack@.drop_last()[k]);
        } else {
            assert(after.token_stack@[k] == after.token_stack@.last());
            if j < before.token_stack@.last().joined@.len() {
                assert(after.token_stack@[k].joined@[j] == before.token_stack@[last].joined@[j]);
            }
        }
    }
}

fn out_of_steps() -> (r: RuntimeError)
    ensures
        r matches RuntimeError::Engine(m) && m@ == "step limit reached"@,
{
    RuntimeError::Engine(owned("step limit reached"))
}

impl<T> Process<T> {
    /// The flows an inclusive gateway's function chose.
    ///
    /// Without a function the gateway cannot run, and without a function
    /// registered at its index neither; else the function's answer is recorded
    /// and the flows are those `inclusive_next` gives for it.
    fn handle_inclusive_gateway(&self, pd: &ProcessData, gateway: &Gateway, data: &T, answers: &mut Answers)
        -> (r: Result<Vec<usize>, RuntimeError>)
        requires
            outputs_within(gateway.outputs, pd.data@.len()),
            gateway.default is Some ==> gateway.default->0.local_id < pd.data@.len(),
        ensures
            r matches Ok(v) ==> spec_below(v@, pd.data@.len()),
            gateway.func_idx is None ==> (r matches Err(RuntimeError::Engine(m))
                && m@ == "missing function "@ + spec_gateway_text(*gateway)),
            spec_extends(final(answers).spec_log(), old(answers).spec_log()),
            !(gateway.func_idx is Some && gateway.func_idx->0 < self.handler.spec_counts().2) ==>
                final(answers).spec_log() == old(answers).spec_log(),
            gateway.func_idx is Some && gateway.func_idx->0 >= self.handler.spec_counts().2 ==> (r matches Err(RuntimeError::Engine(m))
                && m@ == "missing run_inclusive with index: "@ + crate::text::spec_decimal(gateway.func_idx->0 as nat)),
            gateway.func_idx is Some && gateway.func_idx->0 < self.handler.spec_counts().2 ==> {
                &&& final(answers).spec_log().len() == old(answers).spec_log().len() + 1
                &&& final(answers).spec_log().drop_last() == old(answers).spec_log()
                &&& final(answers).spec_log().last() matches Answer::Inclusive(x) && spec_inclusive_result(*pd, *gateway, x, r)
            },
    {
        let index = match gateway.func_idx {
            Some(i) => i,
            None => {
                proof { assert(answers.spec_log().subrange(0, answers.spec_log().len() as int) =~= answers.spec_log()); }
                return Err(RuntimeError::Engine(join2("missing function ", gateway.text().as_str())));
            },
        };
        proof { assert(answers.spec_log().subrange(0, answers.spec_log().len() as int) =~= answers.spec_log()); }
        let result = self.handler.run_inclusive(index, data, answers)?;
        let ghost res = result;
        let r = inclusive_next(pd, gateway, result);
        proof {
            assert(spec_inclusive_result(*pd, *gateway, res, r));
            assert(answers.spec_log().drop_last() =~= old(answers).spec_log());
            assert(answers.spec_log().subrange(0, old(answers).spec_log().len() as int) =~= old(answers).spec_log());
            match res {
                crate::api::Inclusive::Flow(v) => {
                    lemma_first_flow_within(*pd, gateway.outputs.local_ids@, v@);
                },
                crate::api::Inclusive::Fork(vs) => {
                    if vs@.len() == 1 {
                        lemma_first_flow_within(*pd, gateway.outputs.local_ids@, vs@[0]@);
                    } else if vs@.len() > 1 && spec_all_flows(*pd, *gateway, vs@) {
                        let names = choose|names: Seq<String>| {
                            &&& crate::flows::spec_strictly_sorted(names)
                            &&& (forall|k: int| 0 <= k < vs@.len() ==> crate::flows::spec_has_name(names, (#[trigger] vs@[k])@))
                            &&& (forall|i: int| 0 <= i < names.len() ==> crate::flows::spec_has_name(vs@, (#[trigger] names[i])@))
                            &&& r matches Ok(w) && w@.len() == names.len() && forall|i: int| 0 <= i < names.len() ==>
                                Some(#[trigger] w@[i]) == spec_first_flow(*pd, gateway.outputs.local_ids@, names[i]@)
                        };
                        if r is Ok {
                            let w = r->Ok_0;
                            assert forall|i: int| 0 <= i < w@.len() implies #[trigger] w@[i] < pd.data@.len() by {
                                assert(Some(w@[i]) == spec_first_flow(*pd, gateway.outputs.local_ids@, names[i]@));
                                lemma_first_flow_within(*pd, gateway.outputs.local_ids@, names[i]@);
                            }
                        }
                    }
                },
                _ => {},
            }
        }
        r
    }

    /// One step of a token at element `current`: where it goes next, or how it
    /// stops. The answer of a function it asks is recorded in `answers`.
    fn step(&self, p: usize, current: usize, data: &T, fuel: &mut u64, answers: &mut Answers)
        -> (r: Result<Step, RuntimeError>)
        requires
            self.diagram.wf(),
            p < self.diagram.data@.len(),
            current < self.diagram.data@[p as int].data@.len(),
        ensures
            *final(fuel) <= *old(fuel),
            !spec_open(self.diagram.data@[p as int], current) ==> *final(fuel) == *old(fuel),
            final(answers).spec_log().len() >= old(answers).spec_log().len(),
            final(answers).spec_log().subrange(0, old(answers).spec_log().len() as int) == old(answers).spec_log(),
            r matches Ok(Step::Go(x)) ==> x < self.diagram.data@[p as int].data@.len(),
            r matches Ok(Step::Stop(ret)) ==> spec_return_ok(self.diagram.data@[p as int], ret),
            spec_step_rel(self.diagram, p,
                (self.end_callback, self.intermediate_throw_callback, self.intermediate_catch_callback),
                self.handler.spec_counts(), current, old(answers).spec_log(), final(answers).spec_log(),
                *old(fuel) as nat, *final(fuel) as nat, r),
        decreases p, 0nat,
    {
        let pd = &self.diagram.data[p];
        let n = pd.data.len();
        proof {
            reveal(spec_go);
            reveal(spec_stop);
            assert(process_wf(*pd, p as nat));
            assert(bpmn_within(pd.data@[current as int], n as nat, p as nat));
            assert(answers.spec_log().subrange(0, answers.spec_log().len() as int) =~= answers.spec_log());
        }
        let next: Next = match &pd.data[current] {
            Bpmn::Event(e) => {
                match e.event_type {
                    EventType::Start | EventType::Boundary => follow_outputs(&e.outputs, e.text())?,
                    EventType::IntermediateCatch => {
                        if let (Some(cb), Some(s)) = (self.intermediate_catch_callback, e.symbol) {
                            if s != Symbol::Link {
                                let name = match &e.name { Some(x) => Some(x.as_str()), None => None };
                                self.handler.run_end_or_intermediate(cb, data, name, s, answers)?;
                            }
                        }
                        follow_outputs(&e.outputs, e.text())?
                    },
                    EventType::IntermediateThrow => {
                        match &e.name {
                            Some(name) => {
                                if e.symbol == Some(Symbol::Link) {
                                    let target = pd.events.catch_event_link(name.as_str())?;
                                    proof {
                                        assert(spec_last_link(pd.events.catch_event_links@, name@) is Some);
                                    }
                                    Next::Continue(target)
                                } else {
                                    if let (Some(cb), Some(s)) = (self.intermediate_throw_callback, e.symbol) {
                                        self.handler.run_end_or_intermediate(cb, data, Some(name.as_str()), s, answers)?;
                                    }
                                    follow_outputs(&e.outputs, e.text())?
                                }
                            },
                            None => {
                                return Err(RuntimeError::Diagram(DiagramError::MissingIntermediateThrowEventName(
                                    owned(e.id.bpmn()))));
                            },
                        }
                    },
                    EventType::End => {
                        if let (Some(cb), Some(s)) = (self.end_callback, e.symbol) {
                            let name = match &e.name { Some(x) => Some(x.as_str()), None => None };
                            self.handler.run_end_or_intermediate(cb, data, name, s, answers)?;
                        }
                        return Ok(Step::Stop(Return::End(current)));
                    },
                }
            },
            Bpmn::Activity(a) => {
                if a.activity_type == ActivityType::SubProcess {
                    let sub = match a.data_index {
                        Some(i) => i,
                        None => {
                            return Err(RuntimeError::Engine(join2("missing subprocess data with bpmn id ",
                                a.text().as_str())));
                        },
                    };
                    let ghost log_s = answers.spec_log();
                    let ghost f_s: nat = *fuel as nat;
                    let end_r = self.execute(sub, true, data, fuel, Ghost(0), answers);
                    proof {
                        let seg = answers.spec_log().subrange(log_s.len() as int, answers.spec_log().len() as int);
                        assert(spec_rounds(self.diagram, sub, true,
                            (self.end_callback, self.intermediate_throw_callback, self.intermediate_catch_callback),
                            self.handler.spec_counts(), spec_fresh(self.diagram.data@[sub as int].start), None, seg, f_s,
                            *fuel as nat, end_r));
                    }
                    let end = match end_r {
                        Ok(x) => x,
                        Err(e) => { return Err(e); },
                    };
                    let sub_pd = &self.diagram.data[sub];
                    match &sub_pd.data[end] {
                        Bpmn::Event(ev) => {
                            let r = subprocess_next(pd, a, ev);
                            proof {
                                if crate::engine::spec_leaves_by_boundary(*ev) {
                                    let s = ev.symbol->0;
                                    let nm = crate::diagram::opt_view(ev.name);
                                    assert(spec_last_boundary(pd.events.boundaries@, a.id.local_id, s, nm) is Some ==>
                                        spec_last_boundary(pd.events.boundaries@, a.id.local_id, s, nm)->0 < n);
                                }
                            }
                            r?
                        },
                        _ => {
                            return Err(RuntimeError::Engine(join2("missing subprocess data with bpmn id ",
                                a.text().as_str())));
                        },
                    }
                } else {
                    let index = match a.func_idx {
                        Some(i) => i,
                        None => { return Err(RuntimeError::Engine(join2("missing function ", a.text().as_str()))); },
                    };
                    let result = self.handler.run_task(index, data, answers)?;
                    let ghost res = result;
                    let r = task_next(pd, a, result);
                    proof {
                        if let crate::api::Task::Boundary(name, s) = res {
                            let nm = crate::diagram::opt_view(name);
                            assert(spec_last_boundary(pd.events.boundaries@, a.id.local_id, s, nm) is Some ==>
                                spec_last_boundary(pd.events.boundaries@, a.id.local_id, s, nm)->0 < n);
                        }
                    }
                    r?
                }
            },
            Bpmn::Gateway(g) => {
                let k = g.outputs.local_ids.len();
                if k == 0 {
                    return Err(RuntimeError::Diagram(DiagramError::MissingOutput(g.text())));
                } else if k == 1 && g.inputs == 1 {
                    Next::Continue(g.outputs.local_ids[0])
                } else {
                    match g.gateway_type {
                        GatewayType::Exclusive => {
                            if k == 1 {
                                Next::Continue(g.outputs.local_ids[0])
                            } else {
                                let index = match g.func_idx {
                                    Some(i) => i,
                                    None => {
                                        return Err(RuntimeError::Engine(join2("missing function ", g.text().as_str())));
                                    },
                                };
                                let result = self.handler.run_exclusive(index, data, answers)?;
                                let ghost res = result;
                                let r = exclusive_next(pd, g, result);
                                proof {
                                    if let crate::api::Exclusive::Flow(v) = res {
                                        lemma_first_flow_within(*pd, g.outputs.local_ids@, v@);
                                    }
                                }
                                Next::Continue(r?)
                            }
                        },
                        GatewayType::Parallel | GatewayType::Inclusive => {
                            if g.inputs > 1 {
                                return Ok(Step::Stop(Return::Join(current)));
                            }
                            if g.gateway_type == GatewayType::Parallel {
                                return Ok(Step::Stop(Return::Fork(copy_ids(&g.outputs.local_ids))));
                            }
                            let v = self.handle_inclusive_gateway(pd, g, data, answers)?;
                            return Ok(Step::Stop(Return::Fork(v)));
                        },
                        GatewayType::EventBased => {
                            if k == 1 {
                                return Err(RuntimeError::Diagram(DiagramError::BpmnRequirement(
                                    owned("Event gateway must have at least two outgoing sequence flows"))));
                            }
                            let index = match g.func_idx {
                                Some(i) => i,
                                None => {
                                    return Err(RuntimeError::Engine(join2("missing function ", g.text().as_str())));
                                },
                            };
                            let result = self.handler.run_eventbased(index, data, answers)?;
                            let ghost res = result;
                            let r = event_based_next(pd, g, result);
                            proof {
                                if let crate::api::IntermediateEvent::Throw(name, s) = res {
                                    lemma_first_catch_within(*pd, g.outputs.local_ids@, name@, s);
                                }
                            }
                            Next::Continue(r?)
                        },
                    }
                }
            },
            Bpmn::SequenceFlow { target_ref, .. } => Next::Continue(target_ref.local_id),
        };
        match next {
            Next::Continue(c) => Ok(Step::Go(c)),
            Next::Fork(v) => Ok(Step::Stop(Return::Fork(v))),
        }
    }

    /// Runs one token from `start` until it forks, joins a gateway or ends.
    ///
    /// The token walks the diagram as `spec_walk` says, over the answers the
    /// functions it asks give. A token that, asking nothing, stops within
    /// `budget` moves stops there as `spec_stop` says, with enough fuel.
    fn flow(&self, p: usize, start: usize, data: &T, fuel: &mut u64, Ghost(budget): Ghost<nat>, answers: &mut Answers)
        -> (r: Result<Return, RuntimeError>)
        requires
            self.diagram.wf(),
            p < self.diagram.data@.len(),
            start < self.diagram.data@[p as int].data@.len(),
        ensures
            *final(fuel) <= *old(fuel),
            r matches Ok(ret) ==> spec_return_ok(self.diagram.data@[p as int], ret),
            budget < *old(fuel) ==> (spec_reaches_stop(self.diagram.data@[p as int],
                (self.end_callback, self.intermediate_throw_callback, self.intermediate_catch_callback),
                self.handler.spec_counts(), start, budget) matches Some(x) ==>
                spec_stop(self.diagram.data@[p as int],
                    (self.end_callback, self.intermediate_throw_callback, self.intermediate_catch_callback),
                    self.handler.spec_counts(), x, None, r)
                && *final(fuel) + budget + 1 >= *old(fuel)),
            final(answers).spec_log().len() >= old(answers).spec_log().len(),
            final(answers).spec_log().subrange(0, old(answers).spec_log().len() as int) == old(answers).spec_log(),
            spec_walk(self.diagram, p,
                (self.end_callback, self.intermediate_throw_callback, self.intermediate_catch_callback),
                self.handler.spec_counts(), start,
                final(answers).spec_log().subrange(old(answers).spec_log().len() as int, final(answers).spec_log().len() as int),
                *old(fuel) as nat, *final(fuel) as nat, r),
        decreases p, 1nat,
    {
        let pd = &self.diagram.data[p];
        let n = pd.data.len();
        let mut current = start;
        let ghost cbs = (self.end_callback, self.intermediate_throw_callback, self.intermediate_catch_callback);
        let ghost c = self.handler.spec_counts();
        let ghost goal = spec_reaches_stop(*pd, cbs, c, start, budget);
        let ghost mut kk: int = budget as int;
        let ghost l0: int = answers.spec_log().len() as int;
        let ghost f0: nat = *fuel as nat;
        proof {
            assert(process_wf(*pd, p as nat));
            assert forall|rest: Seq<Answer>, fo: nat, rr: Result<Return, RuntimeError>|
                #[trigger] spec_walk(self.diagram, p, cbs, c, current, rest, *fuel as nat, fo, rr) implies
                spec_walk(self.diagram, p, cbs, c, start, answers.spec_log().subrange(l0, answers.spec_log().len() as int) + rest, f0, fo, rr) by {
                assert(answers.spec_log().subrange(l0, answers.spec_log().len() as int) + rest =~= rest);
            }
            assert(answers.spec_log().subrange(0, l0) =~= old(answers).spec_log());
        }
        loop
            invariant
                self.diagram.wf(),
                p < self.diagram.data@.len(),
                *pd == self.diagram.data@[p as int],
                n == pd.data@.len(),
                process_wf(*pd, p as nat),
                current < n,
                *fuel <= *old(fuel),
                cbs == (self.end_callback, self.intermediate_throw_callback, self.intermediate_catch_callback),
                c == self.handler.spec_counts(),
                goal == spec_reaches_stop(*pd, cbs, c, start, budget),
                budget < *old(fuel) && goal is Some ==> {
                    &&& 0 <= kk <= budget
                    &&& spec_reaches_stop(*pd, cbs, c, current, kk as nat) == goal
                    &&& *fuel + (budget - kk) >= *old(fuel)
                },
                l0 == old(answers).spec_log().len(),
                f0 == *old(fuel),
                l0 <= answers.spec_log().len(),
                answers.spec_log().subrange(0, l0) == old(answers).spec_log(),
                forall|rest: Seq<Answer>, fo: nat, rr: Result<Return, RuntimeError>|
                    #[trigger] spec_walk(self.diagram, p, cbs, c, current, rest, *fuel as nat, fo, rr) ==>
                    spec_walk(self.diagram, p, cbs, c, start, answers.spec_log().subrange(l0, answers.spec_log().len() as int) + rest, f0, fo, rr),
            decreases *fuel,
        {
            if *fuel == 0 {
                let e = out_of_steps();
                proof {
                    assert(answers.spec_log().subrange(0, answers.spec_log().len() as int) =~= answers.spec_log());
                    lemma_walk_done(self.diagram, p, cbs, c, start, current, answers.spec_log(), answers.spec_log(), l0,
                        0, f0, 0, Err(e));
                }
                return Err(e);
            }
            let ghost f_before: nat = *fuel as nat;
            let ghost log_before = answers.spec_log();
            *fuel = *fuel - 1;
            let s = self.step(p, current, data, fuel, answers);
            let ghost sg = s;
            proof {
                assert(answers.spec_log().subrange(0, l0) =~= log_before.subrange(0, l0));
            }
            match s {
                Ok(Step::Go(x)) => {
                    proof {
                        if budget < *old(fuel) && goal is Some {
                            assert(spec_reaches_stop(*pd, cbs, c, x, (kk - 1) as nat) == goal);
                            kk = kk - 1;
                        }
                        lemma_walk_go(self.diagram, p, cbs, c, start, current, x, log_before, answers.spec_log(), l0,
                            f_before, *fuel as nat, f0);
                    }
                    current = x;
                },
                Ok(Step::Stop(ret)) => {
                    proof {
                        lemma_step_walk(self.diagram, p, cbs, c, current, log_before, answers.spec_log(), f_before,
                            *fuel as nat, sg, Ok(ret));
                        lemma_walk_done(self.diagram, p, cbs, c, start, current, log_before, answers.spec_log(), l0,
                            f_before, f0, *fuel as nat, Ok(ret));
                    }
                    return Ok(ret);
                },
                Err(e) => {
                    proof {
                        lemma_step_walk(self.diagram, p, cbs, c, current, log_before, answers.spec_log(), f_before,
                            *fuel as nat, sg, Err(e));
                        lemma_walk_done(self.diagram, p, cbs, c, start, current, log_before, answers.spec_log(), l0,
                            f_before, f0, *fuel as nat, Err(e));
                    }
                    return Err(e);
                },
            }
        }
    }

    /// Runs the process with index `p` until no token is left (the last end
    /// event reached is returned) or an end event stops it.
    ///
    /// When the start event's path to an end event takes at most `budget`
    /// plain steps, that end event is returned, with enough fuel.
    fn execute(&self, p: usize, is_subprocess: bool, data: &T, fuel: &mut u64, Ghost(budget): Ghost<nat>,
        answers: &mut Answers)
        -> (r: Result<usize, RuntimeError>)
        requires
            self.diagram.wf(),
            p < self.diagram.data@.len(),
        ensures
            spec_extends(final(answers).spec_log(), old(answers).spec_log()),
            *final(fuel) <= *old(fuel),
            r matches Ok(e) ==> spec_is_end(self.diagram.data@[p as int], e),
            spec_exec(self.diagram, p, is_subprocess,
                (self.end_callback, self.intermediate_throw_callback, self.intermediate_catch_callback),
                self.handler.spec_counts(),
                final(answers).spec_log().subrange(old(answers).spec_log().len() as int, final(answers).spec_log().len() as int),
                *old(fuel) as nat, *final(fuel) as nat, r),
            budget + 2 < *old(fuel) ==> ({
                let pd = self.diagram.data@[p as int];
                let cbs = (self.end_callback, self.intermediate_throw_callback, self.intermediate_catch_callback);
                let c = self.handler.spec_counts();
                spec_reaches_stop(pd, cbs, c, pd.start, budget) is Some
                    && spec_single(pd, cbs, c, spec_reaches_stop(pd, cbs, c, pd.start, budget)->0)
            } ==> {
                let pd = self.diagram.data@[p as int];
                let cbs = (self.end_callback, self.intermediate_throw_callback, self.intermediate_catch_callback);
                let c = self.handler.spec_counts();
                let x = spec_reaches_stop(pd, cbs, c, pd.start, budget)->0;
                &&& r matches Err(e) ==> spec_stop(pd, cbs, c, x, None, Err::<Return, RuntimeError>(e))
                &&& r matches Ok(e) ==> e == x
                    && spec_stop(pd, cbs, c, x, None, Ok::<Return, RuntimeError>(Return::End(x)))
                &&& spec_stop(pd, cbs, c, x, None, Ok::<Return, RuntimeError>(Return::End(x)))
                    ==> r == Ok::<usize, RuntimeError>(x)
            }),
        decreases p, 2nat,
    {
        let pd = &self.diagram.data[p];
        let n = pd.data.len();
        proof {
            assert(process_wf(*pd, p as nat));
        }
        let ghost cbs = (self.end_callback, self.intermediate_throw_callback, self.intermediate_catch_callback);
        let ghost c = self.handler.spec_counts();
        let ghost goal = spec_reaches_stop(*pd, cbs, c, pd.start, budget);
        let ghost good = budget + 2 < *old(fuel) && goal is Some && spec_single(*pd, cbs, c, goal->0);
        let ghost mut first_round = true;
        let mut last_end: Option<usize> = None;
        let mut first: Vec<usize> = Vec::new();
        first.push(pd.start);
        proof { assert(answers.spec_log().subrange(0, answers.spec_log().len() as int) =~= answers.spec_log()); }
        proof { assert(first@ =~= seq![pd.start]); }
        let mut handler = ExecuteHandler::new(first);
        let ghost l0: int = answers.spec_log().len() as int;
        let ghost f0: nat = *fuel as nat;
        proof {
            assert(handler.spec_state().ready =~= spec_fresh(pd.start).ready);
            assert(handler.spec_state() == spec_fresh(pd.start));
            assert forall|rest: Seq<Answer>, fo: nat, rr: Result<usize, RuntimeError>|
                #[trigger] spec_rounds(self.diagram, p, is_subprocess, cbs, c, handler.spec_state(), last_end, rest, *fuel as nat, fo, rr)
                implies spec_exec(self.diagram, p, is_subprocess, cbs, c, answers.spec_log().subrange(l0, answers.spec_log().len() as int) + rest, f0, fo, rr) by {
                assert(answers.spec_log().subrange(l0, answers.spec_log().len() as int) + rest =~= rest);
            }
        }
        loop
            invariant
                self.diagram.wf(),
                p < self.diagram.data@.len(),
                *pd == self.diagram.data@[p as int],
                n == pd.data@.len(),
                process_wf(*pd, p as nat),
                handler.tokens_below(n as nat),
                spec_joins_ok(handler, *pd),
                last_end matches Some(e) ==> spec_is_end(*pd, e),
                *fuel <= *old(fuel),
                spec_extends(answers.spec_log(), old(answers).spec_log()),
                cbs == (self.end_callback, self.intermediate_throw_callback, self.intermediate_catch_callback),
                goal == spec_reaches_stop(*pd, cbs, c, pd.start, budget),
                c == self.handler.spec_counts(),
                good == (budget + 2 < *old(fuel) && goal is Some && spec_single(*pd, cbs, c, goal->0)),
                l0 == old(answers).spec_log().len(),
                f0 == *old(fuel),
                forall|rest: Seq<Answer>, fo: nat, rr: Result<usize, RuntimeError>|
                    #[trigger] spec_rounds(self.diagram, p, is_subprocess, cbs, c, handler.spec_state(), last_end, rest, *fuel as nat, fo, rr)
                    ==> spec_exec(self.diagram, p, is_subprocess, cbs, c, answers.spec_log().subrange(l0, answers.spec_log().len() as int) + rest, f0, fo, rr),
                good && first_round ==> {
                    &&& handler.tokens_ready@.len() == 1
                    &&& handler.tokens_ready@[0]@ == seq![pd.start]
                    &&& handler.uncommitted@.len() == 0
                    &&& handler.token_stack@.len() == 0
                    &&& *fuel == *old(fuel)
                    &&& last_end is None
                },
                good && !first_round ==> {
                    &&& handler.tokens_ready@.len() == 0
                    &&& handler.uncommitted@.len() == 0
                    &&& handler.token_stack@.len() == 0
                    &&& last_end == goal
                    &&& spec_stop(*pd, cbs, c, goal->0, None, Ok::<Return, RuntimeError>(Return::End(goal->0)))
                    &&& *fuel + budget + 2 >= *old(fuel)
                },
            decreases *fuel,
        {
            if *fuel == 0 {
                let e = out_of_steps();
                proof {
                    assert(spec_rounds(self.diagram, p, is_subprocess, cbs, c, handler.spec_state(), last_end, Seq::<Answer>::empty(),
                        0, 0, Err::<usize, RuntimeError>(e)));
                    let fin = answers.spec_log().subrange(l0, answers.spec_log().len() as int);
                    assert(fin + Seq::<Answer>::empty() =~= fin);
                }
                return Err(e);
            }
            let ghost f_b: nat = *fuel as nat;
            let ghost s0 = handler.spec_state();
            *fuel = *fuel - 1;
            let ghost round_fuel = *fuel;
            let active = handler.active_tokens();
            let ghost act = crate::tokens::spec_lists_of(active@);
            proof {
                assert(act =~= s0.ready);
                let fin = answers.spec_log().subrange(l0, answers.spec_log().len() as int);
                assert(fin + Seq::<Answer>::empty() =~= fin);
            }
            if active.len() == 0 {
                return match last_end {
                    Some(e) => {
                        proof {
                            assert(spec_rounds(self.diagram, p, is_subprocess, cbs, c, s0, last_end, Seq::<Answer>::empty(),
                                f_b, (f_b - 1) as nat, Ok::<usize, RuntimeError>(e)));
                        }
                        Ok(e)
                    },
                    None => {
                        let e = RuntimeError::Diagram(DiagramError::MissingEndEvent);
                        proof {
                            assert(spec_rounds(self.diagram, p, is_subprocess, cbs, c, s0, last_end, Seq::<Answer>::empty(),
                                f_b, (f_b - 1) as nat, Err::<usize, RuntimeError>(e)));
                        }
                        Err(e)
                    },
                };
            }
            let mut k = active.len();
            proof {
                assert forall|rest: Seq<Answer>, fo: nat, rr: Result<usize, RuntimeError>|
                    #[trigger] spec_lists(self.diagram, p, is_subprocess, cbs, c, handler.spec_state(), last_end, act, k as nat, rest,
                        *fuel as nat, fo, rr)
                    implies spec_exec(self.diagram, p, is_subprocess, cbs, c, answers.spec_log().subrange(l0, answers.spec_log().len() as int) + rest, f0, fo, rr) by {
                    assert(spec_rounds(self.diagram, p, is_subprocess, cbs, c, s0, last_end, rest, f_b, fo, rr));
                }
            }
            while k > 0
                invariant
                    cbs == (self.end_callback, self.intermediate_throw_callback, self.intermediate_catch_callback),
                    goal == spec_reaches_stop(*pd, cbs, c, pd.start, budget),
                c == self.handler.spec_counts(),
                    good == (budget + 2 < *old(fuel) && goal is Some && spec_single(*pd, cbs, c, goal->0)),
                    good ==> {
                        &&& first_round
                        &&& active@.len() == 1
                        &&& active@[0]@ == seq![pd.start]
                        &&& round_fuel + 1 == *old(fuel)
                    },
                    good && k == 1 ==> {
                        &&& handler.tokens_ready@.len() == 0
                        &&& handler.uncommitted@.len() == 0
                        &&& handler.token_stack@.len() == 0
                        &&& *fuel == round_fuel
                        &&& last_end is None
                    },
                    good && k == 0 ==> {
                        &&& handler.tokens_ready@.len() == 0
                        &&& handler.uncommitted@.len() == 0
                        &&& handler.token_stack@.len() == 0
                        &&& last_end == goal
                    &&& spec_stop(*pd, cbs, c, goal->0, None, Ok::<Return, RuntimeError>(Return::End(goal->0)))
                        &&& *fuel + budget + 2 >= *old(fuel)
                    },
                    self.diagram.wf(),
                    p < self.diagram.data@.len(),
                    *pd == self.diagram.data@[p as int],
                    n == pd.data@.len(),
                    process_wf(*pd, p as nat),
                    k <= active@.len(),
                    forall|i: int, j: int| 0 <= i < active@.len() && 0 <= j < active@[i]@.len()
                        ==> #[trigger] active@[i]@[j] < n,
                    handler.tokens_below(n as nat),
                    spec_joins_ok(handler, *pd),
                    last_end matches Some(e) ==> spec_is_end(*pd, e),
                    *fuel <= round_fuel,
                    spec_extends(answers.spec_log(), old(answers).spec_log()),
                    round_fuel <= *old(fuel),
                    l0 == old(answers).spec_log().len(),
                    f0 == *old(fuel),
                    act == crate::tokens::spec_lists_of(active@),
                    forall|rest: Seq<Answer>, fo: nat, rr: Result<usize, RuntimeError>|
                        #[trigger] spec_lists(self.diagram, p, is_subprocess, cbs, c, handler.spec_state(), last_end, act, k as nat, rest,
                            *fuel as nat, fo, rr)
                        ==> spec_exec(self.diagram, p, is_subprocess, cbs, c, answers.spec_log().subrange(l0, answers.spec_log().len() as int) + rest, f0, fo, rr),
                decreases k,
            {
                k = k - 1;
                let tokens = &active[k];
                let mut j: usize = 0;
                proof {
                    assert(act[k as int] == tokens@);
                    assert forall|rest: Seq<Answer>, fo: nat, rr: Result<usize, RuntimeError>|
                        #[trigger] spec_tokens(self.diagram, p, is_subprocess, cbs, c, handler.spec_state(), last_end, act, k as nat, 0, rest,
                            *fuel as nat, fo, rr)
                        implies spec_exec(self.diagram, p, is_subprocess, cbs, c, answers.spec_log().subrange(l0, answers.spec_log().len() as int) + rest, f0, fo, rr) by {
                        assert(spec_lists(self.diagram, p, is_subprocess, cbs, c, handler.spec_state(), last_end, act, (k + 1) as nat, rest,
                            *fuel as nat, fo, rr));
                    }
                }
                while j < tokens.len()
                    invariant
                        cbs == (self.end_callback, self.intermediate_throw_callback, self.intermediate_catch_callback),
                        goal == spec_reaches_stop(*pd, cbs, c, pd.start, budget),
                c == self.handler.spec_counts(),
                        good == (budget + 2 < *old(fuel) && goal is Some && spec_single(*pd, cbs, c, goal->0)),
                        good ==> {
                            &&& k == 0
                            &&& tokens@ == seq![pd.start]
                            &&& round_fuel + 1 == *old(fuel)
                        },
                        good && j == 0 ==> {
                            &&& handler.tokens_ready@.len() == 0
                            &&& handler.uncommitted@.len() == 0
                            &&& handler.token_stack@.len() == 0
                            &&& *fuel == round_fuel
                            &&& last_end is None
                        },
                        good && j == 1 ==> {
                            &&& handler.tokens_ready@.len() == 0
                            &&& handler.uncommitted@.len() == 0
                            &&& handler.token_stack@.len() == 0
                            &&& last_end == goal
                    &&& spec_stop(*pd, cbs, c, goal->0, None, Ok::<Return, RuntimeError>(Return::End(goal->0)))
                            &&& *fuel + budget + 2 >= *old(fuel)
                        },
                        self.diagram.wf(),
                        p < self.diagram.data@.len(),
                        *pd == self.diagram.data@[p as int],
                        n == pd.data@.len(),
                        process_wf(*pd, p as nat),
                        k < active@.len(),
                        *tokens == active@[k as int],
                        forall|i: int, jj: int| 0 <= i < active@.len() && 0 <= jj < active@[i]@.len()
                            ==> #[trigger] active@[i]@[jj] < n,
                        j <= tokens@.len(),
                        handler.tokens_below(n as nat),
                        spec_joins_ok(handler, *pd),
                        last_end matches Some(e) ==> spec_is_end(*pd, e),
                        *fuel <= round_fuel,
                        spec_extends(answers.spec_log(), old(answers).spec_log()),
                        round_fuel <= *old(fuel),
                        l0 == old(answers).spec_log().len(),
                        f0 == *old(fuel),
                        act == crate::tokens::spec_lists_of(active@),
                        act[k as int] == tokens@,
                        forall|rest: Seq<Answer>, fo: nat, rr: Result<usize, RuntimeError>|
                            #[trigger] spec_tokens(self.diagram, p, is_subprocess, cbs, c, handler.spec_state(), last_end, act, k as nat,
                                j as nat, rest, *fuel as nat, fo, rr)
                            ==> spec_exec(self.diagram, p, is_subprocess, cbs, c, answers.spec_log().subrange(l0, answers.spec_log().len() as int) + rest, f0, fo, rr),
                    decreases tokens@.len() - j,
                {
                    proof {
                        assert(active@[k as int]@[j as int] < n);
                    }
                    let ghost log_before = answers.spec_log();
                    let ghost s_b = handler.spec_state();
                    let ghost le_b = last_end;
                    let ghost f_in: nat = *fuel as nat;
                    let ret = self.flow(p, tokens[j], data, fuel, Ghost(budget), answers);
                    proof { lemma_extends_trans(old(answers).spec_log(), log_before, answers.spec_log()); }
                    let ghost a_tok = answers.spec_log().subrange(log_before.len() as int, answers.spec_log().len() as int);
                    let ret = match ret {
                        Ok(x) => x,
                        Err(e) => {
                            proof {
                                lemma_stop_end(*pd, cbs, c, goal->0, goal->0, Err(e));
                                lemma_token_step(self.diagram, p, is_subprocess, cbs, c, s_b, le_b, act, k as nat, j as nat, a_tok, f_in,
                                    *fuel as nat, Err(e), Seq::<Answer>::empty(), *fuel as nat, Err::<usize, RuntimeError>(e));
                                lemma_concat(log_before, answers.spec_log(), l0, Seq::<Answer>::empty());
                                let fin = answers.spec_log().subrange(l0, answers.spec_log().len() as int);
                                assert(fin + Seq::<Answer>::empty() =~= fin);
                            }
                            return Err(e);
                        },
                    };
                    let ghost rg: Result<Return, RuntimeError> = Ok(ret);
                    match ret {
                        Return::Join(g) => {
                            let ghost before = handler;
                            handler.consume_token(Some(g));
                            proof { lemma_joins_after_consume(before, handler, *pd, Some(g)); }
                        },
                        Return::End(e) => {
                            proof { lemma_stop_end(*pd, cbs, c, goal->0, e, Ok(Return::End(e))); }
                            let stops = match &pd.data[e] {
                                Bpmn::Event(ev) => (is_subprocess && ev.symbol.is_some())
                                    || ev.symbol == Some(Symbol::Terminate) || ev.symbol == Some(Symbol::Error),
                                _ => false,
                            };
                            if stops {
                                proof {
                                    lemma_token_step(self.diagram, p, is_subprocess, cbs, c, s_b, le_b, act, k as nat, j as nat, a_tok, f_in,
                                        *fuel as nat, rg, Seq::<Answer>::empty(), *fuel as nat, Ok::<usize, RuntimeError>(e));
                                    lemma_concat(log_before, answers.spec_log(), l0, Seq::<Answer>::empty());
                                    let fin = answers.spec_log().subrange(l0, answers.spec_log().len() as int);
                                    assert(fin + Seq::<Answer>::empty() =~= fin);
                                }
                                return Ok(e);
                            }
                            last_end = Some(e);
                            let ghost before = handler;
                            handler.consume_token(None);
                            proof { lemma_joins_after_consume(before, handler, *pd, None); }
                        },
                        Return::Fork(items) => {
                            handler.pending_fork(items);
                        },
                    }
                    let ghost j_old = j;
                    j = j + 1;
                    proof {
                        assert forall|rest: Seq<Answer>, fo: nat, rr: Result<usize, RuntimeError>|
                            #[trigger] spec_tokens(self.diagram, p, is_subprocess, cbs, c, handler.spec_state(), last_end, act, k as nat,
                                j as nat, rest, *fuel as nat, fo, rr)
                            implies spec_exec(self.diagram, p, is_subprocess, cbs, c, answers.spec_log().subrange(l0, answers.spec_log().len() as int) + rest, f0, fo, rr) by {
                            lemma_token_step(self.diagram, p, is_subprocess, cbs, c, s_b, le_b, act, k as nat, j_old as nat, a_tok, f_in,
                                *fuel as nat, rg, rest, fo, rr);
                            lemma_concat(log_before, answers.spec_log(), l0, rest);
                        }
                    }
                }
                let ghost before_close = handler;
                let ghost s_c = handler.spec_state();
                let ghost log_c = answers.spec_log();
                let ghost le_c = last_end;
                proof { assert(log_c.subrange(0, log_c.len() as int) =~= log_c); }
                let closed = match handler.tokens_consumed(pd) {
                    Ok(x) => x,
                    Err(e) => {
                        proof {
                            assert(spec_close(self.diagram, p, is_subprocess, cbs, c, s_c, last_end, act, k as nat,
                                Seq::<Answer>::empty(), *fuel as nat, *fuel as nat, Err::<usize, RuntimeError>(e)));
                            assert(spec_tokens(self.diagram, p, is_subprocess, cbs, c, s_c, last_end, act, k as nat, j as nat,
                                Seq::<Answer>::empty(), *fuel as nat, *fuel as nat, Err::<usize, RuntimeError>(e)));
                            let fin = answers.spec_log().subrange(l0, answers.spec_log().len() as int);
                            assert(fin + Seq::<Answer>::empty() =~= fin);
                        }
                        return Err(e);
                    },
                };
                proof {
                    if before_close.token_stack@.len() > 0 {
                        assert forall|kk: int, jj: int| 0 <= kk < handler.token_stack@.len()
                            && 0 <= jj < handler.token_stack@[kk].joined@.len()
                            implies spec_is_join(*pd, #[trigger] handler.token_stack@[kk].joined@[jj]) by {
                            assert(handler.token_stack@[kk] == before_close.token_stack@[kk]);
                        }
                    }
                    if let Some(g) = closed {
                        let top = before_close.token_stack@.last();
                        assert(top.joined@.len() > 0 && g == top.joined@[0]);
                        assert(spec_is_join(*pd, top.joined@[0]));
                    }
                }
                match closed {
                    Some(g) => {
                        if let Bpmn::Gateway(gw) = &pd.data[g] {
                            proof {
                                assert(bpmn_within(pd.data@[g as int], n as nat, p as nat));
                            }
                            if (gw.gateway_type == GatewayType::Parallel || gw.gateway_type == GatewayType::Inclusive)
                                && gw.outputs.local_ids.len() == 1 {
                                handler.immediate(copy_ids(&gw.outputs.local_ids));
                            } else if gw.gateway_type == GatewayType::Parallel {
                                handler.pending_fork(copy_ids(&gw.outputs.local_ids));
                            } else if gw.gateway_type == GatewayType::Inclusive {
                                let ghost log_before = answers.spec_log();
                                let v = self.handle_inclusive_gateway(pd, gw, data, answers);
                                proof { lemma_extends_trans(old(answers).spec_log(), log_before, answers.spec_log()); }
                                let v = match v {
                                    Ok(x) => x,
                                    Err(e) => {
                                        proof {
                                            let a2 = answers.spec_log().subrange(log_c.len() as int, answers.spec_log().len() as int);
                                            if a2.len() == 1 {
                                                assert(a2[0] == answers.spec_log().last());
                                                assert(a2.subrange(1, 1) =~= Seq::<Answer>::empty());
                                            }
                                            assert(spec_close(self.diagram, p, is_subprocess, cbs, c, s_c, le_c, act, k as nat,
                                                a2, *fuel as nat, *fuel as nat, Err::<usize, RuntimeError>(e)));
                                            assert(spec_tokens(self.diagram, p, is_subprocess, cbs, c, s_c, le_c, act, k as nat, j as nat,
                                                a2, *fuel as nat, *fuel as nat, Err::<usize, RuntimeError>(e)));
                                            lemma_concat(log_c, answers.spec_log(), l0, Seq::<Answer>::empty());
                                            let fin = answers.spec_log().subrange(l0, answers.spec_log().len() as int);
                                            assert(fin + Seq::<Answer>::empty() =~= fin);
                                            assert(a2 + Seq::<Answer>::empty() =~= a2);
                                        }
                                        return Err(e);
                                    },
                                };
                                handler.pending_fork(v);
                            }
                        }
                    },
                    None => {},
                }
                proof {
                    lemma_extends_trans(old(answers).spec_log(), log_c, answers.spec_log());
                    assert forall|rest: Seq<Answer>, fo: nat, rr: Result<usize, RuntimeError>|
                        #[trigger] spec_lists(self.diagram, p, is_subprocess, cbs, c, handler.spec_state(), last_end, act, k as nat, rest,
                            *fuel as nat, fo, rr)
                        implies spec_exec(self.diagram, p, is_subprocess, cbs, c, answers.spec_log().subrange(l0, answers.spec_log().len() as int) + rest, f0, fo, rr) by {
                        let a2 = answers.spec_log().subrange(log_c.len() as int, answers.spec_log().len() as int);
                        let ar = a2 + rest;
                        if a2.len() == 1 {
                            assert(ar[0] == answers.spec_log().last());
                            assert(ar.subrange(1, ar.len() as int) =~= rest);
                        } else {
                            assert(a2 =~= Seq::<Answer>::empty());
                            assert(ar =~= rest);
                        }
                        assert(spec_close(self.diagram, p, is_subprocess, cbs, c, s_c, le_c, act, k as nat, ar,
                            *fuel as nat, fo, rr));
                        assert(spec_tokens(self.diagram, p, is_subprocess, cbs, c, s_c, le_c, act, k as nat, j as nat, ar,
                            *fuel as nat, fo, rr));
                        lemma_concat(log_c, answers.spec_log(), l0, rest);
                    }
                }
            }
            let ghost before_commit = handler;
            let ghost s_k = handler.spec_state();
            handler.commit();
            proof {
                first_round = false;
                assert forall|rest: Seq<Answer>, fo: nat, rr: Result<usize, RuntimeError>|
                    #[trigger] spec_rounds(self.diagram, p, is_subprocess, cbs, c, handler.spec_state(), last_end, rest, *fuel as nat, fo, rr)
                    implies spec_exec(self.diagram, p, is_subprocess, cbs, c, answers.spec_log().subrange(l0, answers.spec_log().len() as int) + rest, f0, fo, rr) by {
                    assert(spec_lists(self.diagram, p, is_subprocess, cbs, c, s_k, last_end, act, 0, rest, *fuel as nat, fo, rr));
                }
                assert forall|kk: int, jj: int| 0 <= kk < handler.token_stack@.len()
                    && 0 <= jj < handler.token_stack@[kk].joined@.len()
                    implies spec_is_join(*pd, #[trigger] handler.token_stack@[kk].joined@[jj]) by {
                    if kk < before_commit.token_stack@.len() {
                        assert(handler.token_stack@[kk] == before_commit.token_stack@[kk]);
                    } else {
                        let t = handler.token_stack@[before_commit.token_stack@.len() + (kk - before_commit.token_stack@.len())];
                        assert(t.joined@.len() == 0);
                    }
                }
                assert forall|i: int, j: int| 0 <= i < handler.tokens_ready@.len() && 0 <= j < handler.tokens_ready@[i]@.len()
                    implies #[trigger] handler.tokens_ready@[i]@[j] < n by {
                    if i < before_commit.tokens_ready@.len() {
                        assert(handler.tokens_ready@[i] == before_commit.tokens_ready@[i]);
                    } else {
                        assert(handler.tokens_ready@[i] == before_commit.uncommitted@[i - before_commit.tokens_ready@.len()]);
                    }
                }
            }
        }
    }

    /// Run the process and return the `T` or a `RuntimeError`.
    ///
    /// When the start token of the main process, asking no function, entering
    /// no subprocess, forking and joining nowhere, stops at an element (see
    /// `spec_start_stop`), the run ends as the token stops there: it completes
    /// and gives the data back exactly when that element is an end event, and
    /// otherwise fails with the error the element gives.
    pub fn run(&self, data: T) -> (r: Result<T, RuntimeError>)
        ensures
            r matches Ok(d) ==> d == data,
            self.spec_diagram().definitions@.len() == 0 ==>
                (r matches Err(RuntimeError::Engine(m)) && m@ == "missing top level process"@),
            self.spec_diagram().definitions@.len() > 0 && spec_start_stop(
                self.spec_diagram().data@[self.spec_diagram().definitions@[0] as int],
                self.spec_event_callbacks(), self.spec_counts()) is Some ==> {
                let pd = self.spec_diagram().data@[self.spec_diagram().definitions@[0] as int];
                let x = spec_start_stop(pd, self.spec_event_callbacks(), self.spec_counts())->0;
                &&& r matches Err(e) ==> spec_stop(pd, self.spec_event_callbacks(), self.spec_counts(), x, None,
                    Err::<Return, RuntimeError>(e))
                &&& spec_stop(pd, self.spec_event_callbacks(), self.spec_counts(), x, None,
                    Ok::<Return, RuntimeError>(Return::End(x))) <==> r == Ok::<T, RuntimeError>(data)
            },
            self.spec_diagram().definitions@.len() > 0 ==> exists|log: Seq<Answer>, fo: nat, er: Result<usize, RuntimeError>|
                #[trigger] spec_exec(self.spec_diagram(), self.spec_diagram().definitions@[0], false,
                    self.spec_event_callbacks(), self.spec_counts(), log, u64::MAX as nat, fo, er)
                && match er {
                    Ok(_) => r == Ok::<T, RuntimeError>(data),
                    Err(e) => r == Err::<T, RuntimeError>(e),
                },
    {
        proof {
            use_type_invariant(self);
            self.lemma_spec_diagram();
        }
        if self.diagram.definitions.len() == 0 {
            return Err(RuntimeError::Engine(owned("missing top level process")));
        }
        let p = self.diagram.definitions[0];
        let mut fuel: u64 = u64::MAX;
        let mut answers = Answers::new();
        let er = self.execute(p, false, &data, &mut fuel, Ghost((u64::MAX - 3) as nat), &mut answers);
        proof {
            let log = answers.spec_log().subrange(0, answers.spec_log().len() as int);
            assert(spec_exec(self.diagram, p, false,
                (self.end_callback, self.intermediate_throw_callback, self.intermediate_catch_callback),
                self.handler.spec_counts(), log, u64::MAX as nat, fuel as nat, er));
        }
        match er {
            Ok(_) => {},
            Err(e) => { return Err(e); },
        }
        Ok(data)
    }
}

} // verus!

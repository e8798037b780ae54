//! The decisions the engine takes at each element: where a token goes next,
//! given the element and (for tasks and branching gateways) what the user
//! function returned.
use vstd::prelude::*;
use crate::api::{Exclusive, Inclusive, IntermediateEvent, Task};
use crate::bpmn::{Symbol, Activity, Event, EventType, Gateway, Outputs, spec_symbol_name, spec_gateway_text,
    spec_activity_text};
use crate::diagram::{ProcessData, opt_view, spec_last_boundary, spec_first_flow, spec_first_catch};
use crate::error::{DiagramError, RuntimeError};
use crate::flows::{sorted_distinct, spec_strictly_sorted, spec_has_name};
use crate::text::{owned, join3, join5};

verus! {

/// Where a token goes after an element: on to one element, or forked into several.
pub enum Next {
    Continue(usize),
    Fork(Vec<usize>),
}

/// The token continues with the only output, or forks into all outputs when
/// there are several; without output there is nowhere to go.
pub fn maybe_fork(outputs: &Outputs) -> (r: Option<Next>)
    ensures
        outputs.local_ids@.len() == 0 ==> r is None,
        outputs.local_ids@.len() == 1 ==> r == Some(Next::Continue(outputs.local_ids@[0])),
        outputs.local_ids@.len() > 1 ==> (r matches Some(Next::Fork(v)) && v@ == outputs.local_ids@),
{
    let n = outputs.local_ids.len();
    if n == 0 {
        None
    } else if n == 1 {
        Some(Next::Continue(outputs.local_ids[0]))
    } else {
        Some(Next::Fork(copy_ids(&outputs.local_ids)))
    }
}

/// A copy of the indices.
pub fn copy_ids(v: &Vec<usize>) -> (r: Vec<usize>)
    ensures
        r@ == v@,
{
    let mut r: Vec<usize> = Vec::new();
    let mut i: usize = 0;
    while i < v.len()
        invariant
            i <= v@.len(),
            r@ == v@.subrange(0, i as int),
        decreases v@.len() - i,
    {
        r.push(v[i]);
        proof { assert(r@ =~= v@.subrange(0, i + 1)); }
        i = i + 1;
    }
    proof { assert(v@.subrange(0, v@.len() as int) =~= v@); }
    r
}

/// The missing output error, with the element's description.
pub open spec fn spec_missing_output(r: Result<Next, RuntimeError>, text: Seq<char>) -> bool {
    r matches Err(RuntimeError::Diagram(DiagramError::MissingOutput(m))) && m@ == text
}

/// What `maybe_fork` gives, with the missing output as an error.
pub open spec fn spec_follow_outputs(r: Result<Next, RuntimeError>, outputs: Outputs, text: Seq<char>) -> bool {
    &&& outputs.local_ids@.len() == 0 ==> spec_missing_output(r, text)
    &&& outputs.local_ids@.len() == 1 ==> r == Ok::<Next, RuntimeError>(Next::Continue(outputs.local_ids@[0]))
    &&& outputs.local_ids@.len() > 1 ==> (r matches Ok(Next::Fork(v)) && v@ == outputs.local_ids@)
}

/// Follows the outputs of an element described by `text`.
pub fn follow_outputs(outputs: &Outputs, text: String) -> (r: Result<Next, RuntimeError>)
    ensures
        spec_follow_outputs(r, *outputs, text@),
{
    match maybe_fork(outputs) {
        Some(n) => Ok(n),
        None => Err(RuntimeError::Diagram(DiagramError::MissingOutput(text))),
    }
}

/// How a boundary a task asked for is shown: the name as Rust debug-prints an
/// optional string, and the symbol.
pub open spec fn spec_boundary_request(name: Option<Seq<char>>, symbol: Symbol) -> Seq<char> {
    "("@ + match name {
        Some(n) => "Some(\""@ + n + "\")"@,
        None => "None"@,
    } + ","@ + spec_symbol_name(symbol) + ")"@
}

fn boundary_request(name: &Option<String>, symbol: Symbol) -> (r: String)
    ensures
        r@ == spec_boundary_request(opt_view(*name), symbol),
{
    proof {
        reveal_strlit("(");
        reveal_strlit("Some(\"");
        reveal_strlit("\")");
        reveal_strlit("None");
        reveal_strlit(",");
        reveal_strlit(")");
        reveal_strlit("(Some(\"");
        reveal_strlit("\"),");
        reveal_strlit("(None,");
    }
    match name {
        Some(n) => join5("(Some(\"", n.as_str(), "\"),", symbol.name(), ")"),
        None => join3("(None,", symbol.name(), ")"),
    }
}

/// Where a task leads, given what its function returned: the regular flow, the
/// boundary event it asked for, or the error it raised.
pub fn task_next(pd: &ProcessData, activity: &Activity, result: Task) -> (r: Result<Next, RuntimeError>)
    ensures
        result is Default ==> spec_follow_outputs(r, activity.outputs, spec_activity_text(*activity)),
        result matches Task::Boundary(name, symbol) ==> match spec_last_boundary(pd.events.boundaries@,
            activity.id.local_id, symbol, opt_view(name)) {
            Some(b) => r == Ok::<Next, RuntimeError>(Next::Continue(b)),
            None => r matches Err(RuntimeError::Diagram(DiagramError::MissingBoundary(m1, m2)))
                && m1@ == spec_boundary_request(opt_view(name), symbol) && m2@ == spec_activity_text(*activity),
        },
        result matches Task::Panic(m) ==> r == Err::<Next, RuntimeError>(RuntimeError::Panic(m)),
{
    match result {
        Task::Default => follow_outputs(&activity.outputs, activity.text()),
        Task::Boundary(name, symbol) => {
            let found = match &name {
                Some(n) => pd.events.boundary(activity.id.local_id, symbol, Some(n.as_str())),
                None => pd.events.boundary(activity.id.local_id, symbol, None),
            };
            match found {
                Some(b) => Ok(Next::Continue(b)),
                None => Err(RuntimeError::Diagram(DiagramError::MissingBoundary(
                    boundary_request(&name, symbol), activity.text()))),
            }
        },
        Task::Panic(m) => Err(RuntimeError::Panic(m)),
    }
}

/// The output of a gateway that is the sequence flow with the given name or id.
pub fn find_flow(pd: &ProcessData, search: &str, gateway: &Gateway) -> (r: Result<usize, RuntimeError>)
    ensures
        match spec_first_flow(*pd, gateway.outputs.local_ids@, search@) {
            Some(v) => r == Ok::<usize, RuntimeError>(v),
            None => r matches Err(RuntimeError::Diagram(DiagramError::MissingOutput(m)))
                && m@ == spec_gateway_text(*gateway),
        },
{
    match pd.find_by_name_or_id(search, &gateway.outputs) {
        Some(v) => Ok(v),
        None => Err(RuntimeError::Diagram(DiagramError::MissingOutput(gateway.text()))),
    }
}

/// The default flow of a gateway.
pub fn default_path(gateway: &Gateway) -> (r: Result<usize, RuntimeError>)
    ensures
        match gateway.default {
            Some(d) => r == Ok::<usize, RuntimeError>(d.local_id),
            None => r matches Err(RuntimeError::Diagram(DiagramError::MissingDefault(m)))
                && m@ == spec_gateway_text(*gateway),
        },
{
    match &gateway.default {
        Some(d) => Ok(d.local_id),
        None => Err(RuntimeError::Diagram(DiagramError::MissingDefault(gateway.text()))),
    }
}

/// The default flow of an inclusive gateway, taken for the default answer and
/// for an empty selection; without one, the missing default error.
pub fn inclusive_default(gateway: &Gateway) -> (r: Result<usize, RuntimeError>)
    ensures
        match gateway.default {
            Some(d) => r == Ok::<usize, RuntimeError>(d.local_id),
            None => r matches Err(RuntimeError::Diagram(DiagramError::MissingDefault(m)))
                && m@ == spec_gateway_text(*gateway),
        },
{
    match &gateway.default {
        Some(d) => Ok(d.local_id),
        None => Err(RuntimeError::Diagram(DiagramError::MissingDefault(gateway.text()))),
    }
}

/// Where an exclusive gateway leads, given what its function returned.
pub fn exclusive_next(pd: &ProcessData, gateway: &Gateway, result: Exclusive) -> (r: Result<usize, RuntimeError>)
    ensures
        result matches Exclusive::Flow(v) ==> match spec_first_flow(*pd, gateway.outputs.local_ids@, v@) {
            Some(o) => r == Ok::<usize, RuntimeError>(o),
            None => r matches Err(RuntimeError::Diagram(DiagramError::MissingOutput(m)))
                && m@ == spec_gateway_text(*gateway),
        },
        result is Default ==> match gateway.default {
            Some(d) => r == Ok::<usize, RuntimeError>(d.local_id),
            None => r matches Err(RuntimeError::Diagram(DiagramError::MissingDefault(m)))
                && m@ == spec_gateway_text(*gateway),
        },
        result matches Exclusive::Panic(m) ==> r == Err::<usize, RuntimeError>(RuntimeError::Panic(m)),
{
    match result {
        Exclusive::Flow(v) => find_flow(pd, v.as_str(), gateway),
        Exclusive::Default => default_path(gateway),
        Exclusive::Panic(m) => Err(RuntimeError::Panic(m)),
    }
}

/// The outputs for the flow names, in order; the first name that is no
/// output of the gateway is an error.
pub fn find_flows(pd: &ProcessData, names: &Vec<String>, gateway: &Gateway) -> (r: Result<Vec<usize>, RuntimeError>)
    ensures
        (forall|i: int| 0 <= i < names@.len() ==>
            (#[trigger] spec_first_flow(*pd, gateway.outputs.local_ids@, names@[i]@)) is Some) ==>
            (r matches Ok(v) && v@.len() == names@.len() && forall|i: int| 0 <= i < names@.len() ==>
                Some(#[trigger] v@[i]) == spec_first_flow(*pd, gateway.outputs.local_ids@, names@[i]@)),
        !(forall|i: int| 0 <= i < names@.len() ==>
            (#[trigger] spec_first_flow(*pd, gateway.outputs.local_ids@, names@[i]@)) is Some) ==>
            (r matches Err(RuntimeError::Diagram(DiagramError::MissingOutput(m))) && m@ == spec_gateway_text(*gateway)),
{
    let mut v: Vec<usize> = Vec::new();
    let mut i: usize = 0;
    while i < names.len()
        invariant
            i <= names@.len(),
            v@.len() == i,
            forall|j: int| 0 <= j < i ==> Some(#[trigger] v@[j]) == spec_first_flow(*pd, gateway.outputs.local_ids@, names@[j]@),
        decreases names@.len() - i,
    {
        let o = find_flow(pd, names[i].as_str(), gateway)?;
        v.push(o);
        i = i + 1;
    }
    proof {
        assert forall|i: int| 0 <= i < names@.len() implies
            (#[trigger] spec_first_flow(*pd, gateway.outputs.local_ids@, names@[i]@)) is Some by {
            assert(Some(v@[i]) == spec_first_flow(*pd, gateway.outputs.local_ids@, names@[i]@));
        }
    }
    Ok(v)
}

/// Every name of the fork is a flow of the gateway.
pub open spec fn spec_all_flows(pd: ProcessData, gateway: Gateway, vs: Seq<String>) -> bool {
    forall|k: int| 0 <= k < vs.len() ==> (#[trigger] spec_first_flow(pd, gateway.outputs.local_ids@, vs[k]@)) is Some
}

/// A fork of several names: if every name is a flow of the gateway, the
/// flows of the names sorted in the order of `str`, each name once; else the
/// missing output error.
pub open spec fn spec_inclusive_fork(pd: ProcessData, gateway: Gateway, vs: Seq<String>, r: Result<Vec<usize>, RuntimeError>) -> bool {
    &&& spec_all_flows(pd, gateway, vs) ==> exists|names: Seq<String>| {
        &&& spec_strictly_sorted(names)
        &&& (forall|k: int| 0 <= k < vs.len() ==> spec_has_name(names, (#[trigger] vs[k])@))
        &&& (forall|i: int| 0 <= i < names.len() ==> spec_has_name(vs, (#[trigger] names[i])@))
        &&& r matches Ok(w) && w@.len() == names.len() && forall|i: int| 0 <= i < names.len() ==>
            Some(#[trigger] w@[i]) == spec_first_flow(pd, gateway.outputs.local_ids@, names[i]@)
    }
    &&& !spec_all_flows(pd, gateway, vs) ==>
        (r matches Err(RuntimeError::Diagram(DiagramError::MissingOutput(m))) && m@ == spec_gateway_text(gateway))
}

/// `r` is where an inclusive gateway leads when its function returned
/// `result`: the contract of `inclusive_next`, as one statement.
pub open spec fn spec_inclusive_result(pd: ProcessData, gateway: Gateway, result: Inclusive,
    r: Result<Vec<usize>, RuntimeError>) -> bool
{
    &&& result matches Inclusive::Flow(v) ==> match spec_first_flow(pd, gateway.outputs.local_ids@, v@) {
        Some(o) => r matches Ok(w) && w@ == seq![o],
        None => r matches Err(RuntimeError::Diagram(DiagramError::MissingOutput(m)))
            && m@ == spec_gateway_text(gateway),
    }
    &&& (result is Default || (result matches Inclusive::Fork(vs) && vs@.len() == 0)) ==> match gateway.default {
        Some(d) => r matches Ok(w) && w@ == seq![d.local_id],
        None => r matches Err(RuntimeError::Diagram(DiagramError::MissingDefault(m)))
            && m@ == spec_gateway_text(gateway),
    }
    &&& result matches Inclusive::Fork(vs) ==> (vs@.len() == 1 ==>
        match spec_first_flow(pd, gateway.outputs.local_ids@, vs@[0]@) {
            Some(o) => r matches Ok(w) && w@ == seq![o],
            None => r matches Err(RuntimeError::Diagram(DiagramError::MissingOutput(m)))
                && m@ == spec_gateway_text(gateway),
        })
    &&& result matches Inclusive::Fork(vs) ==> (vs@.len() > 1 ==> spec_inclusive_fork(pd, gateway, vs@, r))
    &&& result matches Inclusive::Panic(m) ==> r == Err::<Vec<usize>, RuntimeError>(RuntimeError::Panic(m))
}

/// Where an inclusive gateway leads, given what its function returned: one
/// flow, the default flow (also for an empty fork), or several flows. A fork
/// of several names takes each name once, in the order of `str`.
pub fn inclusive_next(pd: &ProcessData, gateway: &Gateway, result: Inclusive) -> (r: Result<Vec<usize>, RuntimeError>)
    ensures
        result matches Inclusive::Flow(v) ==> match spec_first_flow(*pd, gateway.outputs.local_ids@, v@) {
            Some(o) => r matches Ok(w) && w@ == seq![o],
            None => r matches Err(RuntimeError::Diagram(DiagramError::MissingOutput(m)))
                && m@ == spec_gateway_text(*gateway),
        },
        (result is Default || (result matches Inclusive::Fork(vs) && vs@.len() == 0)) ==> match gateway.default {
            Some(d) => r matches Ok(w) && w@ == seq![d.local_id],
            None => r matches Err(RuntimeError::Diagram(DiagramError::MissingDefault(m)))
                && m@ == spec_gateway_text(*gateway),
        },
        result matches Inclusive::Fork(vs) ==> (vs@.len() == 1 ==>
            match spec_first_flow(*pd, gateway.outputs.local_ids@, vs@[0]@) {
                Some(o) => r matches Ok(w) && w@ == seq![o],
                None => r matches Err(RuntimeError::Diagram(DiagramError::MissingOutput(m)))
                    && m@ == spec_gateway_text(*gateway),
            }),
        result matches Inclusive::Fork(vs) ==> (vs@.len() > 1 ==> spec_inclusive_fork(*pd, *gateway, vs@, r)),
        result matches Inclusive::Panic(m) ==> r == Err::<Vec<usize>, RuntimeError>(RuntimeError::Panic(m)),
{
    match result {
        Inclusive::Flow(v) => {
            let o = find_flow(pd, v.as_str(), gateway)?;
            Ok(vec![o])
        },
        Inclusive::Fork(vs) => {
            if vs.len() == 0 {
                let d = inclusive_default(gateway)?;
                Ok(vec![d])
            } else if vs.len() == 1 {
                let o = find_flow(pd, vs[0].as_str(), gateway)?;
                Ok(vec![o])
            } else {
                let names = sorted_distinct(&vs);
                let r = find_flows(pd, &names, gateway);
                proof {
                    if spec_all_flows(*pd, *gateway, vs@) {
                        assert forall|i: int| 0 <= i < names@.len() implies
                            (#[trigger] spec_first_flow(*pd, gateway.outputs.local_ids@, names@[i]@)) is Some by {
                            assert(spec_has_name(vs@, names@[i]@));
                            let k = choose|k: int| 0 <= k < vs@.len() && (#[trigger] vs@[k])@ == names@[i]@;
                            assert(spec_first_flow(*pd, gateway.outputs.local_ids@, vs@[k]@) is Some);
                        }
                    } else {
                        let k = choose|k: int| 0 <= k < vs@.len() &&
                            !((#[trigger] spec_first_flow(*pd, gateway.outputs.local_ids@, vs@[k]@)) is Some);
                        assert(spec_has_name(names@, vs@[k]@));
                        let i = choose|i: int| 0 <= i < names@.len() && (#[trigger] names@[i])@ == vs@[k]@;
                        assert(!(spec_first_flow(*pd, gateway.outputs.local_ids@, names@[i]@) is Some));
                    }
                }
                r
            }
        },
        Inclusive::Default => {
            let d = inclusive_default(gateway)?;
            Ok(vec![d])
        },
        Inclusive::Panic(m) => Err(RuntimeError::Panic(m)),
    }
}

/// How a thrown event is shown: its name and symbol.
pub open spec fn spec_thrown(name: Seq<char>, symbol: Symbol) -> Seq<char> {
    "("@ + name + ","@ + spec_symbol_name(symbol) + ")"@
}

/// Where an event-based gateway leads, given the event its function threw:
/// the output towards the catch event (or receive task) with that name and symbol.
pub fn event_based_next(pd: &ProcessData, gateway: &Gateway, result: IntermediateEvent) -> (r: Result<usize, RuntimeError>)
    ensures
        result matches IntermediateEvent::Throw(name, symbol) ==>
            match spec_first_catch(*pd, gateway.outputs.local_ids@, name@, symbol) {
                Some(o) => r == Ok::<usize, RuntimeError>(o),
                None => r matches Err(RuntimeError::Diagram(DiagramError::MissingIntermediateEvent(m1, m2)))
                    && m1@ == spec_gateway_text(*gateway) && m2@ == spec_thrown(name@, symbol),
            },
        result matches IntermediateEvent::Panic(m) ==> r == Err::<usize, RuntimeError>(RuntimeError::Panic(m)),
{
    proof {
        reveal_strlit("(");
        reveal_strlit(",");
        reveal_strlit(")");
    }
    match result {
        IntermediateEvent::Throw(name, symbol) => {
            match pd.find_by_intermediate_event(name.as_str(), symbol, &gateway.outputs) {
                Some(o) => Ok(o),
                None => Err(RuntimeError::Diagram(DiagramError::MissingIntermediateEvent(
                    gateway.text(), join5("(", name.as_str(), ",", symbol.name(), ")")))),
            }
        },
        IntermediateEvent::Panic(m) => Err(RuntimeError::Panic(m)),
    }
}

/// End event symbols that leave a subprocess through a boundary of the same symbol.
pub open spec fn spec_interrupts(s: Symbol) -> bool {
    s == Symbol::Cancel || s == Symbol::Compensation || s == Symbol::Error || s == Symbol::Escalation
        || s == Symbol::Message || s == Symbol::Signal
}

/// The subprocess ended at an end event whose symbol leaves through a boundary.
pub open spec fn spec_leaves_by_boundary(end: Event) -> bool {
    end.event_type == EventType::End && end.symbol is Some && spec_interrupts(end.symbol->0)
}

/// The boundary event of the activity for the symbol and name, or the missing boundary error.
pub open spec fn spec_boundary_exit(pd: ProcessData, activity: Activity, s: Symbol, name: Option<Seq<char>>,
    r: Result<Next, RuntimeError>) -> bool {
    match spec_last_boundary(pd.events.boundaries@, activity.id.local_id, s, name) {
        Some(b) => r == Ok::<Next, RuntimeError>(Next::Continue(b)),
        None => r matches Err(RuntimeError::Diagram(DiagramError::MissingBoundary(m1, m2)))
            && m1@ == spec_symbol_name(s) && m2@ == spec_activity_text(activity),
    }
}

/// A subprocess that ends at an end event with a cancel, compensation, error,
/// escalation, message or signal symbol is left through its boundary event
/// for that symbol and name; an end event with any other symbol, or none,
/// leaves it by its regular flow.
pub proof fn lemma_subprocess_exit(end: Event)
    ensures
        end.event_type == EventType::End && end.symbol is Some && (end.symbol->0 == Symbol::Cancel
            || end.symbol->0 == Symbol::Compensation || end.symbol->0 == Symbol::Error
            || end.symbol->0 == Symbol::Escalation || end.symbol->0 == Symbol::Message
            || end.symbol->0 == Symbol::Signal) ==> spec_leaves_by_boundary(end),
        end.symbol is Some && (end.symbol->0 == Symbol::Conditional || end.symbol->0 == Symbol::Link
            || end.symbol->0 == Symbol::Terminate || end.symbol->0 == Symbol::Timer) ==> !spec_leaves_by_boundary(end),
        end.symbol is None ==> !spec_leaves_by_boundary(end),
{
}

/// Where a subprocess leads once it ended at `end`: the boundary event for
/// the end event's symbol and name, or else the regular flow.
pub fn subprocess_next(pd: &ProcessData, activity: &Activity, end: &Event) -> (r: Result<Next, RuntimeError>)
    ensures
        spec_leaves_by_boundary(*end) ==> spec_boundary_exit(*pd, *activity, end.symbol->0, opt_view(end.name), r),
        !spec_leaves_by_boundary(*end) ==> spec_follow_outputs(r, activity.outputs, spec_activity_text(*activity)),
        end.event_type == EventType::End && end.symbol is Some && (end.symbol->0 == Symbol::Cancel
            || end.symbol->0 == Symbol::Compensation || end.symbol->0 == Symbol::Error
            || end.symbol->0 == Symbol::Escalation || end.symbol->0 == Symbol::Message
            || end.symbol->0 == Symbol::Signal) ==> spec_boundary_exit(*pd, *activity, end.symbol->0, opt_view(end.name), r),
        !(end.event_type == EventType::End && end.symbol is Some) ==>
            spec_follow_outputs(r, activity.outputs, spec_activity_text(*activity)),
{
    if end.event_type == EventType::End {
        if let Some(s) = end.symbol {
            let interrupts = match s {
                Symbol::Cancel | Symbol::Compensation | Symbol::Error | Symbol::Escalation
                | Symbol::Message | Symbol::Signal => true,
                _ => false,
            };
            if interrupts {
                let found = match &end.name {
                    Some(n) => pd.events.boundary(activity.id.local_id, s, Some(n.as_str())),
                    None => pd.events.boundary(activity.id.local_id, s, None),
                };
                return match found {
                    Some(b) => Ok(Next::Continue(b)),
                    None => Err(RuntimeError::Diagram(DiagramError::MissingBoundary(owned(s.name()), activity.text()))),
                };
            }
        }
    }
    follow_outputs(&activity.outputs, activity.text())
}

/// An inclusive fork goes to the same flows for the same names, whatever their
/// order and however often a name repeats: duplicates are discarded.
pub proof fn lemma_fork_ignores_duplicates(
    pd: ProcessData,
    gateway: Gateway,
    vs: Seq<String>,
    ws: Seq<String>,
    r1: Result<Vec<usize>, RuntimeError>,
    r2: Result<Vec<usize>, RuntimeError>,
)
    requires
        spec_inclusive_fork(pd, gateway, vs, r1),
        spec_inclusive_fork(pd, gateway, ws, r2),
        forall|k: int| 0 <= k < vs.len() ==> spec_has_name(ws, (#[trigger] vs[k])@),
        forall|k: int| 0 <= k < ws.len() ==> spec_has_name(vs, (#[trigger] ws[k])@),
    ensures
        r1 is Ok <==> r2 is Ok,
        r1 is Ok ==> r1->Ok_0@ == r2->Ok_0@,
{
    let outs = gateway.outputs.local_ids@;
    assert(spec_all_flows(pd, gateway, vs) <==> spec_all_flows(pd, gateway, ws)) by {
        if spec_all_flows(pd, gateway, vs) {
            assert forall|k: int| 0 <= k < ws.len() implies
                (#[trigger] spec_first_flow(pd, outs, ws[k]@)) is Some by {
                assert(spec_has_name(vs, ws[k]@));
                let m = choose|m: int| 0 <= m < vs.len() && (#[trigger] vs[m])@ == ws[k]@;
                assert(spec_first_flow(pd, outs, vs[m]@) is Some);
            }
        }
        if spec_all_flows(pd, gateway, ws) {
            assert forall|k: int| 0 <= k < vs.len() implies
                (#[trigger] spec_first_flow(pd, outs, vs[k]@)) is Some by {
                assert(spec_has_name(ws, vs[k]@));
                let m = choose|m: int| 0 <= m < ws.len() && (#[trigger] ws[m])@ == vs[k]@;
                assert(spec_first_flow(pd, outs, ws[m]@) is Some);
            }
        }
    }
    if spec_all_flows(pd, gateway, vs) {
        let n1 = choose|names: Seq<String>| {
            &&& spec_strictly_sorted(names)
            &&& (forall|k: int| 0 <= k < vs.len() ==> spec_has_name(names, (#[trigger] vs[k])@))
            &&& (forall|i: int| 0 <= i < names.len() ==> spec_has_name(vs, (#[trigger] names[i])@))
            &&& r1 matches Ok(w) && w@.len() == names.len() && forall|i: int| 0 <= i < names.len() ==>
                Some(#[trigger] w@[i]) == spec_first_flow(pd, outs, names[i]@)
        };
        let n2 = choose|names: Seq<String>| {
            &&& spec_strictly_sorted(names)
            &&& (forall|k: int| 0 <= k < ws.len() ==> spec_has_name(names, (#[trigger] ws[k])@))
            &&& (forall|i: int| 0 <= i < names.len() ==> spec_has_name(ws, (#[trigger] names[i])@))
            &&& r2 matches Ok(w) && w@.len() == names.len() && forall|i: int| 0 <= i < names.len() ==>
                Some(#[trigger] w@[i]) == spec_first_flow(pd, outs, names[i]@)
        };
        assert forall|i: int| 0 <= i < n1.len() implies spec_has_name(n2, (#[trigger] n1[i])@) by {
            assert(spec_has_name(vs, n1[i]@));
            let k = choose|k: int| 0 <= k < vs.len() && (#[trigger] vs[k])@ == n1[i]@;
            assert(spec_has_name(ws, vs[k]@));
            let m = choose|m: int| 0 <= m < ws.len() && (#[trigger] ws[m])@ == vs[k]@;
            assert(spec_has_name(n2, ws[m]@));
        }
        assert forall|i: int| 0 <= i < n2.len() implies spec_has_name(n1, (#[trigger] n2[i])@) by {
            assert(spec_has_name(ws, n2[i]@));
            let k = choose|k: int| 0 <= k < ws.len() && (#[trigger] ws[k])@ == n2[i]@;
            assert(spec_has_name(vs, ws[k]@));
            let m = choose|m: int| 0 <= m < vs.len() && (#[trigger] vs[m])@ == ws[k]@;
            assert(spec_has_name(n1, vs[m]@));
        }
        crate::flows::lemma_sorted_unique(n1, n2);
        let w1 = r1->Ok_0@;
        let w2 = r2->Ok_0@;
        assert forall|i: int| 0 <= i < w1.len() implies w1[i] == w2[i] by {
            assert(Some(w1[i]) == spec_first_flow(pd, outs, n1[i]@));
            assert(Some(w2[i]) == spec_first_flow(pd, outs, n2[i]@));
        }
        assert(w1 =~= w2);
    }
}

} // verus!

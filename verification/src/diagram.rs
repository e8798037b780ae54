//! A read diagram: its processes and subprocesses, each a list of elements
//! that point to one another by index.
use vstd::prelude::*;
use crate::bpmn::{Symbol, EventType, ActivityType, Bpmn, Event, Activity, Gateway, Id, Outputs, BpmnType,
    spec_activity_type_name, spec_gateway_type_name, spec_name_or_id, spec_handler_type, name_or_id};
use crate::error::{DiagramError, RuntimeError};
use crate::func_map::{FuncMap, spec_resolve};
use crate::text::{owned, join3, decimal, spec_decimal};

verus! {

/// The characters of an optional string.
pub open spec fn opt_view(o: Option<String>) -> Option<Seq<char>> {
    match o {
        Some(s) => Some(s@),
        None => None,
    }
}

/// The characters of an optional string slice.
pub open spec fn opt_str_view(o: Option<&str>) -> Option<Seq<char>> {
    match o {
        Some(s) => Some(s@),
        None => None,
    }
}

/// The boundary event attached to an activity, by symbol and optional name.
#[derive(Debug)]
pub struct BoundaryKey {
    pub id: usize,
    pub symbol: Symbol,
    pub name: Option<String>,
}

/// The key is the one for this activity, symbol and name.
pub open spec fn key_matches(k: BoundaryKey, id: usize, symbol: Symbol, name: Option<Seq<char>>) -> bool {
    k.id == id && k.symbol == symbol && opt_view(k.name) == name
}

/// The event of the last registration under the key.
pub open spec fn spec_last_boundary(
    es: Seq<(BoundaryKey, usize)>,
    id: usize,
    symbol: Symbol,
    name: Option<Seq<char>>,
) -> Option<usize>
    decreases es.len(),
{
    if es.len() == 0 {
        None
    } else if key_matches(es.last().0, id, symbol, name) {
        Some(es.last().1)
    } else {
        spec_last_boundary(es.drop_last(), id, symbol, name)
    }
}

/// The event of the last link registration under the name.
pub open spec fn spec_last_link(es: Seq<(String, usize)>, name: Seq<char>) -> Option<usize>
    decreases es.len(),
{
    if es.len() == 0 {
        None
    } else if es.last().0@ == name {
        Some(es.last().1)
    } else {
        spec_last_link(es.drop_last(), name)
    }
}

/// A boundary event registered under an activity, symbol and name is what a
/// lookup under exactly those finds; other lookups are as before. A name, if
/// the event has one, must match.
pub proof fn lemma_register_then_boundary(
    es: Seq<(BoundaryKey, usize)>,
    k: BoundaryKey,
    v: usize,
    id: usize,
    symbol: Symbol,
    name: Option<Seq<char>>,
)
    ensures
        spec_last_boundary(es.push((k, v)), k.id, k.symbol, opt_view(k.name)) == Some(v),
        !key_matches(k, id, symbol, name) ==>
            spec_last_boundary(es.push((k, v)), id, symbol, name) == spec_last_boundary(es, id, symbol, name),
{
    assert(es.push((k, v)).drop_last() =~= es);
}

/// A link catch event registered under a name is what a throw event of that
/// name jumps to; other names are as before.
pub proof fn lemma_register_then_link(es: Seq<(String, usize)>, n: String, v: usize, other: Seq<char>)
    ensures
        spec_last_link(es.push((n, v)), n@) == Some(v),
        other != n@ ==> spec_last_link(es.push((n, v)), other) == spec_last_link(es, other),
{
    assert(es.push((n, v)).drop_last() =~= es);
}

/// The boundary events and link catch events of a process, for fast lookup.
#[derive(Debug)]
pub struct Events {
    pub boundaries: Vec<(BoundaryKey, usize)>,
    pub catch_event_links: Vec<(String, usize)>,
}

/// How registering an event changes the lookups: a boundary event (attached
/// and with a symbol) is found under its activity, symbol and name; a link
/// catch event with a name is found under the name.
pub open spec fn spec_registers_boundary(e: Event) -> bool {
    e.attached_to_ref is Some && e.symbol is Some
}

/// The event is a named link catch event (and no boundary event).
pub open spec fn spec_registers_link(e: Event) -> bool {
    !spec_registers_boundary(e) && e.event_type == EventType::IntermediateCatch
        && e.symbol == Some(Symbol::Link) && e.name is Some
}

impl Events {
    /// No event registered.
    pub fn new() -> (r: Events)
        ensures
            r.boundaries@.len() == 0,
            r.catch_event_links@.len() == 0,
    {
        Events { boundaries: Vec::new(), catch_event_links: Vec::new() }
    }

    /// Makes the event findable: a boundary event under its activity, symbol
    /// and name, a link catch event under its name. A later registration under
    /// the same key replaces an earlier one.
    pub fn register(&mut self, event: &Event)
        ensures
            spec_registers_boundary(*event) ==> {
                &&& final(self).catch_event_links == old(self).catch_event_links
                &&& forall|id: usize, s: Symbol, n: Option<Seq<char>>|
                    #[trigger] spec_last_boundary(final(self).boundaries@, id, s, n)
                    == if id == event.attached_to_ref->0.local_id && s == event.symbol->0 && n == opt_view(event.name) {
                        Some(event.id.local_id)
                    } else {
                        spec_last_boundary(old(self).boundaries@, id, s, n)
                    }
            },
            spec_registers_link(*event) ==> {
                &&& final(self).boundaries == old(self).boundaries
                &&& forall|n: Seq<char>| #[trigger] spec_last_link(final(self).catch_event_links@, n)
                    == if n == event.name->0@ { Some(event.id.local_id) } else { spec_last_link(old(self).catch_event_links@, n) }
            },
            !spec_registers_boundary(*event) && !spec_registers_link(*event) ==> *final(self) == *old(self),
    {
        let ghost old_b = self.boundaries@;
        let ghost old_l = self.catch_event_links@;
        match (&event.attached_to_ref, &event.symbol) {
            (Some(attached), Some(symbol)) => {
                let name = match &event.name {
                    Some(n) => Some(owned(n.as_str())),
                    None => None,
                };
                self.boundaries.push((BoundaryKey { id: attached.local_id, symbol: *symbol, name }, event.id.local_id));
                assert(self.boundaries@.drop_last() =~= old_b);
                return;
            },
            _ => {},
        }
        if event.event_type == EventType::IntermediateCatch && event.symbol == Some(Symbol::Link) {
            if let Some(name) = &event.name {
                self.catch_event_links.push((owned(name.as_str()), event.id.local_id));
                assert(self.catch_event_links@.drop_last() =~= old_l);
            }
        }
    }

    /// The boundary event attached to the activity with the given index, symbol and name.
    pub fn boundary(&self, id: usize, symbol: Symbol, name: Option<&str>) -> (r: Option<usize>)
        ensures
            r == spec_last_boundary(self.boundaries@, id, symbol, opt_str_view(name)),
    {
        let mut i = self.boundaries.len();
        proof {
            assert(self.boundaries@.subrange(0, i as int) =~= self.boundaries@);
        }
        while i > 0
            invariant
                i <= self.boundaries@.len(),
                spec_last_boundary(self.boundaries@, id, symbol, opt_str_view(name))
                    == spec_last_boundary(self.boundaries@.subrange(0, i as int), id, symbol, opt_str_view(name)),
            decreases i,
        {
            let e = &self.boundaries[i - 1];
            proof {
                assert(self.boundaries@.subrange(0, i as int).drop_last() =~= self.boundaries@.subrange(0, i - 1));
            }
            let same_name = match (&e.0.name, name) {
                (Some(a), Some(b)) => crate::text::str_eq(a.as_str(), b),
                (None, None) => true,
                _ => false,
            };
            if e.0.id == id && e.0.symbol == symbol && same_name {
                return Some(e.1);
            }
            i = i - 1;
        }
        proof {
            assert(self.boundaries@.subrange(0, 0) =~= Seq::<(BoundaryKey, usize)>::empty());
        }
        None
    }

    fn link(&self, name: &str) -> (r: Option<usize>)
        ensures
            r == spec_last_link(self.catch_event_links@, name@),
    {
        let mut i = self.catch_event_links.len();
        proof {
            assert(self.catch_event_links@.subrange(0, i as int) =~= self.catch_event_links@);
        }
        while i > 0
            invariant
                i <= self.catch_event_links@.len(),
                spec_last_link(self.catch_event_links@, name@)
                    == spec_last_link(self.catch_event_links@.subrange(0, i as int), name@),
            decreases i,
        {
            proof {
                assert(self.catch_event_links@.subrange(0, i as int).drop_last()
                    =~= self.catch_event_links@.subrange(0, i - 1));
            }
            if crate::text::str_eq(self.catch_event_links[i - 1].0.as_str(), name) {
                return Some(self.catch_event_links[i - 1].1);
            }
            i = i - 1;
        }
        proof {
            assert(self.catch_event_links@.subrange(0, 0) =~= Seq::<(String, usize)>::empty());
        }
        None
    }

    /// The link catch event that a throw event with this name jumps to.
    pub fn catch_event_link(&self, throw_event_name: &str) -> (r: Result<usize, RuntimeError>)
        ensures
            spec_last_link(self.catch_event_links@, throw_event_name@) matches Some(v) ==> r == Ok::<usize, RuntimeError>(v),
            spec_last_link(self.catch_event_links@, throw_event_name@) is None ==>
                (r matches Err(RuntimeError::Diagram(DiagramError::MissingIntermediateCatchEvent(s, n)))
                && s@ == "Link"@ && n@ == throw_event_name@),
    {
        match self.link(throw_event_name) {
            Some(v) => Ok(v),
            None => Err(RuntimeError::Diagram(DiagramError::MissingIntermediateCatchEvent(
                owned(Symbol::Link.name()),
                owned(throw_event_name),
            ))),
        }
    }
}

/// The elements of one process or subprocess.
#[derive(Debug)]
pub struct ProcessData {
    /// Index of the start event.
    pub start: usize,
    pub data: Vec<Bpmn>,
    pub events: Events,
}

/// The output at `idx` is a sequence flow with the given name or id.
pub open spec fn spec_flow_matches(pd: ProcessData, idx: usize, search: Seq<char>) -> bool {
    &&& idx < pd.data@.len()
    &&& pd.data@[idx as int] matches Bpmn::SequenceFlow { id, name, .. }
    &&& (opt_view(name) == Some(search) || id.bpmn_id@ == search)
}

/// The first of `outputs` that is a sequence flow with the given name or id.
pub open spec fn spec_first_flow(pd: ProcessData, outputs: Seq<usize>, search: Seq<char>) -> Option<usize> {
    if exists|i: int| 0 <= i < outputs.len() && #[trigger] spec_flow_matches(pd, outputs[i], search) {
        let i = choose|i: int| 0 <= i < outputs.len() && #[trigger] spec_flow_matches(pd, outputs[i], search)
            && forall|j: int| 0 <= j < i ==> !spec_flow_matches(pd, #[trigger] outputs[j], search);
        Some(outputs[i])
    } else {
        None
    }
}

/// The first of `outputs` that leads to a catch event with the given name and symbol.
pub open spec fn spec_first_catch(pd: ProcessData, outputs: Seq<usize>, name: Seq<char>, symbol: Symbol) -> Option<usize> {
    if exists|i: int| 0 <= i < outputs.len() && #[trigger] spec_catches(pd, outputs[i], name, symbol) {
        let i = choose|i: int| 0 <= i < outputs.len() && #[trigger] spec_catches(pd, outputs[i], name, symbol)
            && forall|j: int| 0 <= j < i ==> !spec_catches(pd, #[trigger] outputs[j], name, symbol);
        Some(outputs[i])
    } else {
        None
    }
}

/// The output at `idx` is a sequence flow to a catch event (or a receive task,
/// for messages) with the given name and symbol.
pub open spec fn spec_catches(pd: ProcessData, idx: usize, name: Seq<char>, symbol: Symbol) -> bool {
    &&& idx < pd.data@.len()
    &&& pd.data@[idx as int] matches Bpmn::SequenceFlow { target_ref, .. }
    &&& target_ref.local_id < pd.data@.len()
    &&& match pd.data@[target_ref.local_id as int] {
        Bpmn::Activity(a) => a.activity_type == ActivityType::ReceiveTask && a.name is Some
            && symbol == Symbol::Message && a.name->0@ == name,
        Bpmn::Event(e) => e.symbol is Some && e.name is Some
            && (e.symbol->0 == Symbol::Message || e.symbol->0 == Symbol::Signal
                || e.symbol->0 == Symbol::Timer || e.symbol->0 == Symbol::Conditional)
            && e.symbol->0 == symbol && e.name->0@ == name,
        _ => false,
    }
}

/// An event-based gateway routes a thrown event to the first output that is
/// a sequence flow to a catch event with the thrown name and symbol, where a
/// catch event catches messages, signals, timers and conditions: whenever
/// such an output exists, the route for that name and symbol exists.
pub proof fn lemma_catch_event_routes(pd: ProcessData, outputs: Seq<usize>, name: Seq<char>, symbol: Symbol, i: int)
    requires
        0 <= i < outputs.len(),
        outputs[i] < pd.data@.len(),
        (pd.data@[outputs[i] as int] matches Bpmn::SequenceFlow { target_ref, .. } && target_ref.local_id < pd.data@.len()
            && (pd.data@[target_ref.local_id as int] matches Bpmn::Event(e)
            && e.symbol == Some(symbol) && e.name is Some && e.name->0@ == name)),
        symbol == Symbol::Message || symbol == Symbol::Signal || symbol == Symbol::Timer || symbol == Symbol::Conditional,
    ensures
        spec_first_catch(pd, outputs, name, symbol) is Some,
{
    assert(spec_catches(pd, outputs[i], name, symbol));
}

/// No catch event catches a cancel, compensation, error, escalation, link
/// or terminate event: for those symbols the only catch is a receive task,
/// and only for messages, so none is found.
pub proof fn lemma_no_catch_for_other_symbols(pd: ProcessData, idx: usize, name: Seq<char>, symbol: Symbol)
    requires
        !(symbol == Symbol::Message || symbol == Symbol::Signal || symbol == Symbol::Timer
            || symbol == Symbol::Conditional),
    ensures
        !spec_catches(pd, idx, name, symbol),
{
}

proof fn lemma_first_flow(pd: ProcessData, outputs: Seq<usize>, search: Seq<char>, i: int)
    requires
        0 <= i < outputs.len(),
        spec_flow_matches(pd, outputs[i], search),
        forall|j: int| 0 <= j < i ==> !spec_flow_matches(pd, #[trigger] outputs[j], search),
    ensures
        spec_first_flow(pd, outputs, search) == Some(outputs[i]),
{
    let k = choose|k: int| 0 <= k < outputs.len() && #[trigger] spec_flow_matches(pd, outputs[k], search)
        && forall|j: int| 0 <= j < k ==> !spec_flow_matches(pd, #[trigger] outputs[j], search);
    assert(k == i) by {
        if k < i { assert(!spec_flow_matches(pd, outputs[k], search)); }
        if k > i { assert(!spec_flow_matches(pd, outputs[i], search)); }
    }
}

proof fn lemma_first_catch(pd: ProcessData, outputs: Seq<usize>, name: Seq<char>, symbol: Symbol, i: int)
    requires
        0 <= i < outputs.len(),
        spec_catches(pd, outputs[i], name, symbol),
        forall|j: int| 0 <= j < i ==> !spec_catches(pd, #[trigger] outputs[j], name, symbol),
    ensures
        spec_first_catch(pd, outputs, name, symbol) == Some(outputs[i]),
{
    let k = choose|k: int| 0 <= k < outputs.len() && #[trigger] spec_catches(pd, outputs[k], name, symbol)
        && forall|j: int| 0 <= j < k ==> !spec_catches(pd, #[trigger] outputs[j], name, symbol);
    assert(k == i) by {
        if k < i { assert(!spec_catches(pd, outputs[k], name, symbol)); }
        if k > i { assert(!spec_catches(pd, outputs[i], name, symbol)); }
    }
}

impl ProcessData {
    /// The index of the start event.
    pub fn start(&self) -> (r: usize)
        ensures
            r == self.start,
    {
        self.start
    }

    /// The element with the given index, if there is one.
    pub fn get(&self, index: usize) -> (r: Option<&Bpmn>)
        ensures
            index < self.data@.len() ==> r == Some(&self.data@[index as int]),
            index >= self.data@.len() ==> r is None,
    {
        if index < self.data.len() {
            Some(&self.data[index])
        } else {
            None
        }
    }

    /// All elements, in the order of the process.
    pub fn iter(&self) -> (r: &[Bpmn])
        ensures
            r@ == self.data@,
    {
        self.data.as_slice()
    }

    fn flow_matches(&self, idx: usize, search: &str) -> (r: bool)
        ensures
            r == spec_flow_matches(*self, idx, search@),
    {
        match self.get(idx) {
            Some(Bpmn::SequenceFlow { id, name, .. }) => {
                let by_name = match name {
                    Some(n) => crate::text::str_eq(n.as_str(), search),
                    None => false,
                };
                by_name || crate::text::str_eq(id.bpmn(), search)
            },
            _ => false,
        }
    }

    /// The first of the outputs that is a sequence flow named `search`, or with id `search`.
    pub fn find_by_name_or_id(&self, search: &str, outputs: &Outputs) -> (r: Option<usize>)
        ensures
            r == spec_first_flow(*self, outputs.local_ids@, search@),
    {
        let mut i: usize = 0;
        while i < outputs.local_ids.len()
            invariant
                i <= outputs.local_ids@.len(),
                forall|j: int| 0 <= j < i ==> !spec_flow_matches(*self, #[trigger] outputs.local_ids@[j], search@),
            decreases outputs.local_ids@.len() - i,
        {
            let idx = outputs.local_ids[i];
            if self.flow_matches(idx, search) {
                proof { lemma_first_flow(*self, outputs.local_ids@, search@, i as int); }
                return Some(idx);
            }
            i = i + 1;
        }
        None
    }

    fn catches(&self, idx: usize, name: &str, symbol: Symbol) -> (r: bool)
        ensures
            r == spec_catches(*self, idx, name@, symbol),
    {
        match self.get(idx) {
            Some(Bpmn::SequenceFlow { target_ref, .. }) => {
                match self.get(target_ref.local_id) {
                    Some(Bpmn::Activity(a)) => {
                        match &a.name {
                            Some(n) => a.activity_type == ActivityType::ReceiveTask && symbol == Symbol::Message
                                && crate::text::str_eq(n.as_str(), name),
                            None => false,
                        }
                    },
                    Some(Bpmn::Event(e)) => {
                        match (&e.symbol, &e.name) {
                            (Some(s), Some(n)) => {
                                let catching = match s {
                                    Symbol::Message | Symbol::Signal | Symbol::Timer | Symbol::Conditional => true,
                                    _ => false,
                                };
                                catching && *s == symbol && crate::text::str_eq(n.as_str(), name)
                            },
                            _ => false,
                        }
                    },
                    _ => false,
                }
            },
            _ => false,
        }
    }

    /// The first of the outputs that leads to a catch event (or receive task) with the given name and symbol.
    pub fn find_by_intermediate_event(&self, name: &str, symbol: Symbol, outputs: &Outputs) -> (r: Option<usize>)
        ensures
            r == spec_first_catch(*self, outputs.local_ids@, name@, symbol),
    {
        let mut i: usize = 0;
        while i < outputs.local_ids.len()
            invariant
                i <= outputs.local_ids@.len(),
                forall|j: int| 0 <= j < i ==> !spec_catches(*self, #[trigger] outputs.local_ids@[j], name@, symbol),
            decreases outputs.local_ids@.len() - i,
        {
            let idx = outputs.local_ids[i];
            if self.catches(idx, name, symbol) {
                proof { lemma_first_catch(*self, outputs.local_ids@, name@, symbol, i as int); }
                return Some(idx);
            }
            i = i + 1;
        }
        None
    }
}

/// All processes of a diagram. `definitions` holds the indices of the top
/// level processes; a subprocess's data is stored before its parent's.
#[derive(Debug)]
pub struct Diagram {
    pub definitions: Vec<usize>,
    pub data: Vec<ProcessData>,
}

/// The element is the start event the process runs from.
pub open spec fn spec_is_start(b: Bpmn) -> bool {
    b matches Bpmn::Event(e) && e.event_type == EventType::Start && e.symbol is None
}

/// Every output is a valid index.
pub open spec fn outputs_within(o: Outputs, n: nat) -> bool {
    &&& o.wf()
    &&& forall|k: int| 0 <= k < o.local_ids@.len() ==> #[trigger] o.local_ids@[k] < n
}

/// Every reference of the element is an index below `n`, and a subprocess
/// points to process data stored before its own process `p`.
pub open spec fn bpmn_within(b: Bpmn, n: nat, p: nat) -> bool {
    match b {
        Bpmn::Activity(a) => outputs_within(a.outputs, n)
            && (a.data_index is Some ==> a.data_index->0 < p),
        Bpmn::Event(e) => outputs_within(e.outputs, n)
            && (e.attached_to_ref is Some ==> e.attached_to_ref->0.local_id < n),
        Bpmn::Gateway(g) => outputs_within(g.outputs, n)
            && (g.default is Some ==> g.default->0.local_id < n),
        Bpmn::SequenceFlow { target_ref, .. } => target_ref.local_id < n,
    }
}

/// The process with index `p` is consistent: it has a start event, every
/// element knows its own index, every reference is in range, and the event
/// lookups give elements of the process.
pub open spec fn process_wf(pd: ProcessData, p: nat) -> bool {
    &&& pd.start < pd.data@.len()
    &&& spec_is_start(pd.data@[pd.start as int])
    &&& forall|i: int| 0 <= i < pd.data@.len() ==>
        bpmn_within(#[trigger] pd.data@[i], pd.data@.len(), p) && pd.data@[i].spec_id().local_id == i
    &&& forall|id: usize, s: Symbol, n: Option<Seq<char>>|
        #[trigger] spec_last_boundary(pd.events.boundaries@, id, s, n) is Some
        ==> spec_last_boundary(pd.events.boundaries@, id, s, n)->0 < pd.data@.len()
    &&& forall|n: Seq<char>| #[trigger] spec_last_link(pd.events.catch_event_links@, n) is Some
        ==> spec_last_link(pd.events.catch_event_links@, n)->0 < pd.data@.len()
}

impl Diagram {
    /// Every process is consistent and every top level process exists.
    pub open spec fn wf(&self) -> bool {
        &&& forall|p: int| 0 <= p < self.data@.len() ==> process_wf(#[trigger] self.data@[p], p as nat)
        &&& forall|k: int| 0 <= k < self.definitions@.len() ==> #[trigger] self.definitions@[k] < self.data@.len()
    }
}

/// What an element needs registered before the process can run, and how it
/// is named when it is missing: every task, and every exclusive, inclusive or
/// event-based gateway with more than one output.
pub open spec fn spec_requirement(b: Bpmn) -> Option<(BpmnType, Seq<char>)> {
    match b {
        Bpmn::Activity(a) => if a.activity_type != ActivityType::SubProcess {
            Some((BpmnType::Task, spec_activity_type_name(a.activity_type) + ": "@ + spec_name_or_id(a.name, a.id)))
        } else {
            None
        },
        Bpmn::Gateway(g) => if spec_handler_type(g.gateway_type) is Some && g.outputs.local_ids.len() > 1 {
            Some((spec_handler_type(g.gateway_type)->0,
                spec_gateway_type_name(g.gateway_type) + ": "@ + spec_name_or_id(g.name, g.id)))
        } else {
            None
        },
        _ => None,
    }
}

/// The function an element that has a requirement resolves to.
pub open spec fn spec_element_resolve(m: Map<(BpmnType, Seq<char>), usize>, b: Bpmn) -> Option<usize> {
    match spec_requirement(b) {
        Some((ty, _)) => spec_resolve(m, ty, b.spec_id().bpmn_id@, opt_view(spec_element_name(b))),
        None => None,
    }
}

/// The element's name, if it has one.
pub open spec fn spec_element_name(b: Bpmn) -> Option<String> {
    match b {
        Bpmn::Activity(a) => a.name,
        Bpmn::Event(e) => e.name,
        Bpmn::Gateway(g) => g.name,
        Bpmn::SequenceFlow { name, .. } => name,
    }
}

/// The element with its function index set.
pub open spec fn spec_installed(b: Bpmn, idx: usize) -> Bpmn {
    match b {
        Bpmn::Activity(a) => Bpmn::Activity(Activity { func_idx: Some(idx), ..a }),
        Bpmn::Gateway(g) => Bpmn::Gateway(Gateway { func_idx: Some(idx), ..g }),
        _ => b,
    }
}

/// The element after installation: unchanged, unless it has a requirement that resolves.
pub open spec fn spec_after_install(m: Map<(BpmnType, Seq<char>), usize>, b: Bpmn) -> Bpmn {
    match spec_element_resolve(m, b) {
        Some(idx) => spec_installed(b, idx),
        None => b,
    }
}

/// An element whose requirement does not resolve is missing.
pub open spec fn spec_missing(m: Map<(BpmnType, Seq<char>), usize>, b: Bpmn) -> bool {
    spec_requirement(b) is Some && spec_element_resolve(m, b) is None
}

/// The collected texts include `k`.
pub open spec fn spec_has_text(v: Seq<String>, k: Seq<char>) -> bool {
    exists|i: int| 0 <= i < v.len() && (#[trigger] v[i])@ == k
}

/// Some element of `data` is missing and described by `k`.
pub open spec fn spec_missing_in(m: Map<(BpmnType, Seq<char>), usize>, data: Seq<Bpmn>, k: Seq<char>) -> bool {
    exists|i: int| 0 <= i < data.len() && spec_missing(m, #[trigger] data[i]) && (spec_requirement(data[i])->0).1 == k
}

/// Some element of the first `n` processes is missing and described by `k`.
pub open spec fn spec_missing_in_processes(m: Map<(BpmnType, Seq<char>), usize>, ps: Seq<ProcessData>, n: int, k: Seq<char>) -> bool {
    exists|q: int| 0 <= q < n && #[trigger] spec_missing_in(m, ps[q].data@, k)
}

impl Diagram {
    /// A diagram of the given processes.
    pub fn new(definitions: Vec<usize>, data: Vec<ProcessData>) -> (r: Diagram)
        ensures
            r.definitions == definitions,
            r.data == data,
    {
        Diagram { definitions, data }
    }

    /// The process or subprocess with the given index.
    pub fn get_process(&self, process_id: usize) -> (r: Result<&ProcessData, RuntimeError>)
        ensures
            process_id < self.data@.len() ==> r == Ok::<&ProcessData, RuntimeError>(&self.data@[process_id as int]),
            process_id >= self.data@.len() ==> (r matches Err(RuntimeError::Engine(m))
                && m@ == "missing process data with index `"@ + spec_decimal(process_id as nat) + "`"@),
    {
        if process_id < self.data.len() {
            Ok(&self.data[process_id])
        } else {
            let n = decimal(process_id);
            Err(RuntimeError::Engine(join3("missing process data with index `", n.as_str(), "`")))
        }
    }

    /// The first top level process.
    pub fn main_process(&self) -> (r: Result<&ProcessData, RuntimeError>)
        ensures
            self.definitions@.len() > 0 && self.definitions@[0] < self.data@.len() ==>
                r == Ok::<&ProcessData, RuntimeError>(&self.data@[self.definitions@[0] as int]),
            self.definitions@.len() == 0 || self.definitions@[0] >= self.data@.len() ==> r is Err,
    {
        if self.definitions.len() == 0 {
            Err(RuntimeError::Engine(owned("missing top level process")))
        } else {
            self.get_process(self.definitions[0])
        }
    }

    /// All processes and subprocesses.
    pub fn data(&self) -> (r: &[ProcessData])
        ensures
            r@ == self.data@,
    {
        self.data.as_slice()
    }

    /// Sets the function index of every task and branching gateway whose
    /// function is registered, and returns the descriptions of those whose
    /// function is missing, each once.
    pub fn install_and_check(&mut self, func_map: &FuncMap) -> (missing: Vec<String>)
        ensures
            final(self).definitions == old(self).definitions,
            final(self).data@.len() == old(self).data@.len(),
            forall|p: int| 0 <= p < old(self).data@.len() ==> {
                &&& (#[trigger] final(self).data@[p]).start == old(self).data@[p].start
                &&& final(self).data@[p].events == old(self).data@[p].events
                &&& final(self).data@[p].data@.len() == old(self).data@[p].data@.len()
                &&& forall|i: int| 0 <= i < old(self).data@[p].data@.len() ==>
                    #[trigger] final(self).data@[p].data@[i] == spec_after_install(func_map@, old(self).data@[p].data@[i])
            },
            forall|k: Seq<char>| #[trigger] spec_has_text(missing@, k)
                <==> spec_missing_in_processes(func_map@, old(self).data@, old(self).data@.len() as int, k),
            forall|i: int, j: int| 0 <= i < j < missing@.len() ==> missing@[i]@ != missing@[j]@,
    {
        let ghost old_data = self.data@;
        let mut missing: Vec<String> = Vec::new();
        let mut p: usize = 0;
        while p < self.data.len()
            invariant
                p <= self.data@.len(),
                self.data@.len() == old_data.len(),
                self.definitions == old(self).definitions,
                forall|q: int| 0 <= q < old_data.len() ==> {
                    &&& (#[trigger] self.data@[q]).start == old_data[q].start
                    &&& self.data@[q].events == old_data[q].events
                    &&& self.data@[q].data@.len() == old_data[q].data@.len()
                    &&& forall|i: int| 0 <= i < old_data[q].data@.len() ==>
                        #[trigger] self.data@[q].data@[i] == if q < p {
                            spec_after_install(func_map@, old_data[q].data@[i])
                        } else {
                            old_data[q].data@[i]
                        }
                },
                forall|k: Seq<char>| #[trigger] spec_has_text(missing@, k)
                    <==> spec_missing_in_processes(func_map@, old_data, p as int, k),
                forall|i: int, j: int| 0 <= i < j < missing@.len() ==> missing@[i]@ != missing@[j]@,
            decreases old_data.len() - p,
        {
            let ghost before_p = self.data@;
            let ghost missing_before = missing@;
            let mut pd = ProcessData { start: 0, data: Vec::new(), events: Events::new() };
            std::mem::swap(&mut pd, &mut self.data[p]);
            assert(pd == before_p[p as int]);
            assert(before_p[p as int].data@.len() == old_data[p as int].data@.len());
            assert(forall|i: int| 0 <= i < old_data[p as int].data@.len() ==> before_p[p as int].data@[i] == old_data[p as int].data@[i]);
            assert(pd.data@ =~= old_data[p as int].data@);
            install_in_process(&mut pd, func_map, &mut missing);
            self.data.set(p, pd);
            proof {
                assert forall|k: Seq<char>| #[trigger] spec_has_text(missing@, k)
                    <==> spec_missing_in_processes(func_map@, old_data, p + 1, k) by {
                    if spec_missing_in_processes(func_map@, old_data, p + 1, k) {
                        let q = choose|q: int| 0 <= q < p + 1 && #[trigger] spec_missing_in(func_map@, old_data[q].data@, k);
                        if q < p {
                            assert(spec_missing_in_processes(func_map@, old_data, p as int, k));
                            assert(spec_has_text(missing_before, k));
                        }
                    }
                    if spec_has_text(missing@, k) {
                        if !spec_has_text(missing_before, k) {
                            assert(spec_missing_in(func_map@, old_data[p as int].data@, k));
                        } else {
                            assert(spec_missing_in_processes(func_map@, old_data, p as int, k));
                        }
                    }
                }
            }
            p = p + 1;
        }
        missing
    }
}

/// An element that needs a function has one installed.
pub open spec fn spec_has_function(b: Bpmn) -> bool {
    spec_requirement(b) is Some ==> match b {
        Bpmn::Activity(a) => a.func_idx is Some,
        Bpmn::Gateway(g) => g.func_idx is Some,
        _ => true,
    }
}

/// How many functions of the given kind are registered, among the counts of
/// task, exclusive, inclusive and event-based gateway and event functions.
pub open spec fn spec_kind_count(t: BpmnType, c: (nat, nat, nat, nat, nat)) -> nat {
    match t {
        BpmnType::Task => c.0,
        BpmnType::Exclusive => c.1,
        BpmnType::Inclusive => c.2,
        BpmnType::EventBased => c.3,
    }
}

/// Every function index in the map names a registered function of its kind.
pub open spec fn spec_map_within(m: Map<(BpmnType, Seq<char>), usize>, c: (nat, nat, nat, nat, nat)) -> bool {
    forall|k: (BpmnType, Seq<char>)| #[trigger] m.contains_key(k) ==> m[k] < spec_kind_count(k.0, c)
}

/// An element that needs a function has one, and it names a registered
/// function of its kind.
pub open spec fn spec_function_registered(b: Bpmn, c: (nat, nat, nat, nat, nat)) -> bool {
    match spec_requirement(b) {
        Some((ty, _)) => match b {
            Bpmn::Activity(a) => a.func_idx matches Some(i) && i < spec_kind_count(ty, c),
            Bpmn::Gateway(g) => g.func_idx matches Some(i) && i < spec_kind_count(ty, c),
            _ => true,
        },
        None => true,
    }
}

/// Every element of every process needs no function or has a registered one.
pub open spec fn spec_functions_registered(d: Diagram, c: (nat, nat, nat, nat, nat)) -> bool {
    forall|q: int, i: int| 0 <= q < d.data@.len() && 0 <= i < d.data@[q].data@.len()
        ==> spec_function_registered(#[trigger] d.data@[q].data@[i], c)
}

/// Installing from a map whose indices are all registered gives an element
/// that is not missing its function a registered function.
pub proof fn lemma_install_registered(m: Map<(BpmnType, Seq<char>), usize>, c: (nat, nat, nat, nat, nat), b: Bpmn)
    requires
        !spec_missing(m, b),
        spec_map_within(m, c),
    ensures
        spec_function_registered(spec_after_install(m, b), c),
{
    if let Some((ty, _)) = spec_requirement(b) {
        let id = b.spec_id().bpmn_id@;
        let nm = opt_view(spec_element_name(b));
        if m.contains_key((ty, id)) {
            assert(m[(ty, id)] < spec_kind_count(ty, c));
        } else if nm is Some && m.contains_key((ty, nm->0)) {
            assert(m[(ty, nm->0)] < spec_kind_count(ty, c));
        }
    }
}

/// When no element is missing its function, installing gives every element
/// that needs a function its function.
pub proof fn lemma_install_complete(m: Map<(BpmnType, Seq<char>), usize>, b: Bpmn)
    requires
        !spec_missing(m, b),
    ensures
        spec_has_function(spec_after_install(m, b)),
        spec_requirement(spec_after_install(m, b)) == spec_requirement(b),
{
}

/// Elements with the same name share a function: two elements that need a
/// function of the same kind, have the same name, and whose ids have no
/// function registered, get the function registered for that name (or both
/// none).
pub proof fn lemma_same_name_same_function(m: Map<(BpmnType, Seq<char>), usize>, b1: Bpmn, b2: Bpmn)
    requires
        spec_requirement(b1) is Some,
        spec_requirement(b2) is Some,
        (spec_requirement(b1)->0).0 == (spec_requirement(b2)->0).0,
        spec_element_name(b1) is Some,
        opt_view(spec_element_name(b1)) == opt_view(spec_element_name(b2)),
        !m.contains_key(((spec_requirement(b1)->0).0, b1.spec_id().bpmn_id@)),
        !m.contains_key(((spec_requirement(b2)->0).0, b2.spec_id().bpmn_id@)),
    ensures
        spec_element_resolve(m, b1) == spec_element_resolve(m, b2),
        spec_element_resolve(m, b1) == crate::func_map::spec_get(m, (spec_requirement(b1)->0).0,
            spec_element_name(b1)->0@),
{
}

/// Installing functions keeps a diagram consistent: it only sets function indices.
pub proof fn lemma_install_keeps_wf(before: Diagram, after: Diagram, m: Map<(BpmnType, Seq<char>), usize>)
    requires
        before.wf(),
        after.definitions == before.definitions,
        after.data@.len() == before.data@.len(),
        forall|p: int| 0 <= p < before.data@.len() ==> {
            &&& (#[trigger] after.data@[p]).start == before.data@[p].start
            &&& after.data@[p].events == before.data@[p].events
            &&& after.data@[p].data@.len() == before.data@[p].data@.len()
            &&& forall|i: int| 0 <= i < before.data@[p].data@.len() ==>
                #[trigger] after.data@[p].data@[i] == spec_after_install(m, before.data@[p].data@[i])
        },
    ensures
        after.wf(),
{
    assert forall|p: int| 0 <= p < after.data@.len() implies process_wf(#[trigger] after.data@[p], p as nat) by {
        let b = before.data@[p];
        let a = after.data@[p];
        assert(process_wf(b, p as nat));
        assert forall|i: int| 0 <= i < a.data@.len() implies
            bpmn_within(#[trigger] a.data@[i], a.data@.len(), p as nat) && a.data@[i].spec_id().local_id == i by {
            assert(bpmn_within(b.data@[i], b.data@.len(), p as nat));
            assert(a.data@[i] == spec_after_install(m, b.data@[i]));
        }
        assert(a.data@[a.start as int] == spec_after_install(m, b.data@[b.start as int]));
    }
}

/// Whether the string is one of the collected ones.
fn contains_text(v: &Vec<String>, s: &String) -> (r: bool)
    ensures
        r == exists|i: int| 0 <= i < v@.len() && (#[trigger] v@[i])@ == s@,
{
    let mut i: usize = 0;
    while i < v.len()
        invariant
            i <= v@.len(),
            forall|j: int| 0 <= j < i ==> (#[trigger] v@[j])@ != s@,
        decreases v@.len() - i,
    {
        if v[i] == *s {
            return true;
        }
        i = i + 1;
    }
    false
}

impl Bpmn {
    /// What the element needs registered, if anything: the kind and its description.
    pub fn requirement(&self) -> (r: Option<(BpmnType, String)>)
        ensures
            match r {
                Some((ty, d)) => spec_requirement(*self) == Some((ty, d@)),
                None => spec_requirement(*self) is None,
            },
    {
        match self {
            Bpmn::Activity(a) => {
                if a.activity_type != ActivityType::SubProcess {
                    Some((BpmnType::Task, crate::text::join3(a.activity_type.name(), ": ", name_or_id(&a.name, &a.id))))
                } else {
                    None
                }
            },
            Bpmn::Gateway(g) => {
                match g.gateway_type.handler_type() {
                    Some(ty) => if g.outputs.len() > 1 {
                        Some((ty, crate::text::join3(g.gateway_type.name(), ": ", name_or_id(&g.name, &g.id))))
                    } else {
                        None
                    },
                    None => None,
                }
            },
            _ => None,
        }
    }

    /// Sets the function index of an activity or a gateway.
    pub fn set_func_idx(&mut self, idx: usize)
        ensures
            *final(self) == spec_installed(*old(self), idx),
    {
        match self {
            Bpmn::Activity(a) => { a.func_idx = Some(idx); },
            Bpmn::Gateway(g) => { g.func_idx = Some(idx); },
            _ => {},
        }
    }

    /// The element's name, if it has one.
    pub fn name(&self) -> (r: Option<&str>)
        ensures
            opt_str_view(r) == opt_view(spec_element_name(*self)),
    {
        let n = match self {
            Bpmn::Activity(a) => &a.name,
            Bpmn::Event(e) => &e.name,
            Bpmn::Gateway(g) => &g.name,
            Bpmn::SequenceFlow { name, .. } => name,
        };
        match n {
            Some(s) => Some(s.as_str()),
            None => None,
        }
    }

    /// The element's identity.
    pub fn id_ref(&self) -> (r: &Id)
        ensures
            *r == self.spec_id(),
    {
        match self {
            Bpmn::Activity(a) => &a.id,
            Bpmn::Event(e) => &e.id,
            Bpmn::Gateway(g) => &g.id,
            Bpmn::SequenceFlow { id, .. } => id,
        }
    }
}

fn install_in_process(pd: &mut ProcessData, func_map: &FuncMap, missing: &mut Vec<String>)
    requires
        forall|i: int, j: int| 0 <= i < j < old(missing)@.len() ==> old(missing)@[i]@ != old(missing)@[j]@,
    ensures
        final(pd).start == old(pd).start,
        final(pd).events == old(pd).events,
        final(pd).data@.len() == old(pd).data@.len(),
        forall|i: int| 0 <= i < old(pd).data@.len() ==>
            #[trigger] final(pd).data@[i] == spec_after_install(func_map@, old(pd).data@[i]),
        forall|k: Seq<char>| #[trigger] spec_has_text(final(missing)@, k)
            <==> (spec_has_text(old(missing)@, k) || spec_missing_in(func_map@, old(pd).data@, k)),
        forall|i: int, j: int| 0 <= i < j < final(missing)@.len() ==> final(missing)@[i]@ != final(missing)@[j]@,
{
    let ghost old_data = pd.data@;
    let ghost old_missing = missing@;
    let mut i: usize = 0;
    while i < pd.data.len()
        invariant
            i <= pd.data@.len(),
            pd.data@.len() == old_data.len(),
            pd.start == old(pd).start,
            pd.events == old(pd).events,
            forall|j: int| 0 <= j < old_data.len() ==>
                #[trigger] pd.data@[j] == if j < i { spec_after_install(func_map@, old_data[j]) } else { old_data[j] },
            forall|k: Seq<char>| #[trigger] spec_has_text(missing@, k)
                <==> (spec_has_text(old_missing, k) || spec_missing_in(func_map@, old_data.subrange(0, i as int), k)),
            forall|a: int, b: int| 0 <= a < b < missing@.len() ==> missing@[a]@ != missing@[b]@,
        decreases old_data.len() - i,
    {
        let ghost missing_before = missing@;
        let ghost b = old_data[i as int];
        let req = pd.data[i].requirement();
        match req {
            Some((ty, desc)) => {
                let found = func_map.get_id(ty, pd.data[i].id_ref(), pd.data[i].name());
                match found {
                    Some(idx) => {
                        pd.data[i].set_func_idx(idx);
                        assert(!spec_missing(func_map@, b));
                    },
                    None => {
                        assert(spec_missing(func_map@, b));
                        if !contains_text(missing, &desc) {
                            missing.push(desc);
                            proof {
                                assert forall|k: Seq<char>| #[trigger] spec_has_text(missing@, k)
                                    <==> (spec_has_text(missing_before, k) || (spec_requirement(b)->0).1 == k) by {
                                    if spec_has_text(missing@, k) {
                                        let j = choose|j: int| 0 <= j < missing@.len() && (#[trigger] missing@[j])@ == k;
                                        if j < missing_before.len() {
                                            assert(missing_before[j] == missing@[j]);
                                        }
                                    }
                                    if spec_has_text(missing_before, k) {
                                        let j = choose|j: int| 0 <= j < missing_before.len() && (#[trigger] missing_before[j])@ == k;
                                        assert(missing@[j] == missing_before[j]);
                                    }
                                    if (spec_requirement(b)->0).1 == k {
                                        assert(missing@[missing@.len() - 1]@ == k);
                                    }
                                }
                            }
                        }
                    },
                }
            },
            None => {},
        }
        proof {
            assert(forall|k: Seq<char>| #[trigger] spec_has_text(missing@, k)
                <==> (spec_has_text(missing_before, k) || (spec_missing(func_map@, b) && (spec_requirement(b)->0).1 == k)));
            let sub = old_data.subrange(0, i as int);
            let sub1 = old_data.subrange(0, i + 1);
            assert(sub1 =~= sub.push(b));
            assert forall|k: Seq<char>| spec_missing_in(func_map@, sub1, k)
                <==> (spec_missing_in(func_map@, sub, k) || (spec_missing(func_map@, b) && (spec_requirement(b)->0).1 == k)) by {
                if spec_missing_in(func_map@, sub1, k) {
                    let j = choose|j: int| 0 <= j < sub1.len() && spec_missing(func_map@, #[trigger] sub1[j])
                        && (spec_requirement(sub1[j])->0).1 == k;
                    if j < i {
                        assert(sub[j] == sub1[j]);
                    }
                }
                if spec_missing_in(func_map@, sub, k) {
                    let j = choose|j: int| 0 <= j < sub.len() && spec_missing(func_map@, #[trigger] sub[j])
                        && (spec_requirement(sub[j])->0).1 == k;
                    assert(sub1[j] == sub[j]);
                }
                if spec_missing(func_map@, b) && (spec_requirement(b)->0).1 == k {
                    assert(sub1[i as int] == b);
                }
            }
        }
        i = i + 1;
    }
    proof {
        assert(old_data.subrange(0, old_data.len() as int) =~= old_data);
    }
}

} // verus!

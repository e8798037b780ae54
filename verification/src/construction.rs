//! A process under construction: its elements are collected in order, then
//! the references between them are resolved to indices.
use vstd::prelude::*;
use crate::bpmn::{Symbol, EventType, Bpmn, Event, Activity, Gateway, Id, Outputs};
use crate::diagram::{Events, ProcessData, spec_last_boundary, spec_last_link, opt_view, spec_is_start,
    spec_registers_boundary, spec_registers_link};
use crate::error::{ParseError, ParseErrorKind};
use crate::text::owned;

verus! {

/// The BPMN ids of the elements, in order.
pub open spec fn spec_ids(data: Seq<Bpmn>) -> Seq<Seq<char>> {
    Seq::new(data.len(), |i: int| data[i].spec_id().bpmn_id@)
}

/// The characters of each string.
pub open spec fn views(v: Seq<String>) -> Seq<Seq<char>> {
    Seq::new(v.len(), |i: int| v[i]@)
}

/// The index of the last id equal to `key`.
pub open spec fn spec_index_of(ids: Seq<Seq<char>>, key: Seq<char>) -> Option<usize>
    decreases ids.len(),
{
    if ids.len() == 0 {
        None
    } else if ids.last() == key {
        Some((ids.len() - 1) as usize)
    } else {
        spec_index_of(ids.drop_last(), key)
    }
}

proof fn lemma_index_of_bound(ids: Seq<Seq<char>>, key: Seq<char>)
    requires
        ids.len() <= usize::MAX,
    ensures
        spec_index_of(ids, key) matches Some(i) ==> i < ids.len() && ids[i as int] == key,
    decreases ids.len(),
{
    if ids.len() > 0 && ids.last() != key {
        lemma_index_of_bound(ids.drop_last(), key);
        if let Some(i) = spec_index_of(ids.drop_last(), key) {
            assert(ids.drop_last()[i as int] == ids[i as int]);
        }
    }
}

/// A reference resolved against the ids: pointed at the element with that id, if any.
pub open spec fn spec_resolve_id(ids: Seq<Seq<char>>, r: Id) -> Id {
    match spec_index_of(ids, r.bpmn_id@) {
        Some(i) => Id { bpmn_id: r.bpmn_id, local_id: i },
        None => r,
    }
}

/// An optional reference, resolved.
pub open spec fn spec_resolve_opt(ids: Seq<Seq<char>>, r: Option<Id>) -> Option<Id> {
    match r {
        Some(x) => Some(spec_resolve_id(ids, x)),
        None => None,
    }
}

/// `new` is `old` with every output that names an element pointed at it.
pub open spec fn spec_resolved_outputs(ids: Seq<Seq<char>>, old: Outputs, new: Outputs) -> bool {
    &&& new.bpmn_ids == old.bpmn_ids
    &&& new.local_ids@.len() == old.local_ids@.len()
    &&& forall|k: int| 0 <= k < old.local_ids@.len() ==> #[trigger] new.local_ids@[k] == match spec_index_of(ids, old.bpmn_ids@[k]@) {
        Some(i) => i,
        None => old.local_ids@[k],
    }
}

/// `new` is `old` with all its references resolved against the ids.
pub open spec fn spec_finalized(ids: Seq<Seq<char>>, old: Bpmn, new: Bpmn) -> bool {
    match (old, new) {
        (Bpmn::Activity(a), Bpmn::Activity(b)) =>
            b == Activity { outputs: b.outputs, ..a } && spec_resolved_outputs(ids, a.outputs, b.outputs),
        (Bpmn::Event(a), Bpmn::Event(b)) =>
            b == Event { outputs: b.outputs, attached_to_ref: spec_resolve_opt(ids, a.attached_to_ref), ..a }
            && spec_resolved_outputs(ids, a.outputs, b.outputs),
        (Bpmn::Gateway(a), Bpmn::Gateway(b)) =>
            b == Gateway { outputs: b.outputs, default: spec_resolve_opt(ids, a.default), ..a }
            && spec_resolved_outputs(ids, a.outputs, b.outputs),
        (Bpmn::SequenceFlow { id: i1, name: n1, target_ref: t1 }, Bpmn::SequenceFlow { id: i2, name: n2, target_ref: t2 }) =>
            i2 == i1 && n2 == n1 && t2 == spec_resolve_id(ids, t1),
        _ => false,
    }
}

/// The boundary event registered last under the key, among the elements.
pub open spec fn spec_boundary_of(data: Seq<Bpmn>, id: usize, symbol: Symbol, name: Option<Seq<char>>) -> Option<usize>
    decreases data.len(),
{
    if data.len() == 0 {
        None
    } else {
        match data.last() {
            Bpmn::Event(e) => if spec_registers_boundary(e) && e.attached_to_ref->0.local_id == id
                && e.symbol->0 == symbol && opt_view(e.name) == name {
                Some(e.id.local_id)
            } else {
                spec_boundary_of(data.drop_last(), id, symbol, name)
            },
            _ => spec_boundary_of(data.drop_last(), id, symbol, name),
        }
    }
}

/// The link catch event registered last under the name, among the elements.
pub open spec fn spec_link_of(data: Seq<Bpmn>, name: Seq<char>) -> Option<usize>
    decreases data.len(),
{
    if data.len() == 0 {
        None
    } else {
        match data.last() {
            Bpmn::Event(e) => if spec_registers_link(e) && e.name->0@ == name {
                Some(e.id.local_id)
            } else {
                spec_link_of(data.drop_last(), name)
            },
            _ => spec_link_of(data.drop_last(), name),
        }
    }
}

/// The lookups of `events` are those registered by the elements.
pub open spec fn spec_events_of(events: Events, data: Seq<Bpmn>) -> bool {
    &&& forall|id: usize, s: Symbol, n: Option<Seq<char>>| #[trigger] spec_last_boundary(events.boundaries@, id, s, n)
        == spec_boundary_of(data, id, s, n)
    &&& forall|n: Seq<char>| #[trigger] spec_last_link(events.catch_event_links@, n) == spec_link_of(data, n)
}


/// The elements of a process, as they are collected.
#[derive(Debug)]
pub struct ProcessConstruction {
    pub start: Option<usize>,
    pub data: Vec<Bpmn>,
    pub events: Events,
}

impl ProcessConstruction {
    /// No element collected yet.
    pub fn new() -> (r: ProcessConstruction)
        ensures
            r.start is None,
            r.data@.len() == 0,
            r.events.boundaries@.len() == 0,
            r.events.catch_event_links@.len() == 0,
    {
        ProcessConstruction { start: None, data: Vec::new(), events: Events::new() }
    }

    /// Appends an element, which gets its index as local id. A second start
    /// event without symbol is refused.
    pub fn add(&mut self, bpmn: Bpmn) -> (r: Result<(), ParseError>)
        ensures
            spec_is_start(bpmn) && old(self).start is Some ==> {
                &&& r matches Err(e) && e.source matches ParseErrorKind::NotSupported(m) && m@ == "multiple start event"@
                &&& final(self).data == old(self).data
            },
            !(spec_is_start(bpmn) && old(self).start is Some) ==> {
                &&& r is Ok
                &&& final(self).data@.len() == old(self).data@.len() + 1
                &&& final(self).data@.drop_last() == old(self).data@
                &&& final(self).data@.last().same_but_id(bpmn)
                &&& final(self).data@.last().spec_id().local_id == old(self).data@.len()
                &&& final(self).start == if spec_is_start(bpmn) { Some(old(self).data@.len() as usize) } else { old(self).start }
            },
            final(self).events == old(self).events,
    {
        let len = self.data.len();
        let is_start = match &bpmn {
            Bpmn::Event(e) => e.event_type == EventType::Start && e.symbol.is_none(),
            _ => false,
        };
        if is_start {
            let had = self.start.is_some();
            self.start = Some(len);
            if had {
                return Err(ParseError { source: ParseErrorKind::NotSupported(owned("multiple start event")) });
            }
        }
        let mut bpmn = bpmn;
        bpmn.update_local_id(len);
        self.data.push(bpmn);
        Ok(())
    }

    /// Everything in the process has been collected: points every reference
    /// at the element with that id, and registers the events for lookup.
    pub fn finalize(&mut self)
        requires
            forall|i: int| 0 <= i < old(self).data@.len() ==> (#[trigger] old(self).data@[i]).outputs_ok(),
        ensures
            final(self).start == old(self).start,
            final(self).data@.len() == old(self).data@.len(),
            forall|i: int| 0 <= i < old(self).data@.len() ==>
                spec_finalized(spec_ids(old(self).data@), old(self).data@[i], #[trigger] final(self).data@[i]),
            spec_ids(final(self).data@) == spec_ids(old(self).data@),
            old(self).events.boundaries@.len() == 0 && old(self).events.catch_event_links@.len() == 0 ==>
                spec_events_of(final(self).events, final(self).data@),
    {
        let ghost old_data = self.data@;
        let ghost ids_s = spec_ids(old_data);
        let mut ids: Vec<String> = Vec::new();
        let mut i: usize = 0;
        while i < self.data.len()
            invariant
                i <= self.data@.len(),
                self.data@ == old_data,
                ids_s == spec_ids(old_data),
                ids@.len() == i,
                forall|k: int| 0 <= k < i ==> #[trigger] ids@[k]@ == ids_s[k],
            decreases self.data@.len() - i,
        {
            let id = owned(self.data[i].id());
            assert(id@ == ids_s[i as int]);
            ids.push(id);
            assert(ids@[i as int]@ == ids_s[i as int]);
            i = i + 1;
        }
        assert(views(ids@) =~= ids_s);
        let ghost old_events = self.events;
        let mut i: usize = 0;
        while i < self.data.len()
            invariant
                i <= self.data@.len(),
                self.data@.len() == old_data.len(),
                views(ids@) == ids_s,
                ids_s == spec_ids(old_data),
                self.start == old(self).start,
                forall|k: int| 0 <= k < old_data.len() ==> (#[trigger] old_data[k]).outputs_ok(),
                forall|k: int| 0 <= k < old_data.len() ==> #[trigger] self.data@[k] == if k < i { self.data@[k] } else { old_data[k] },
                forall|k: int| 0 <= k < i ==> spec_finalized(ids_s, old_data[k], #[trigger] self.data@[k]),
                old_events.boundaries@.len() == 0 && old_events.catch_event_links@.len() == 0 ==>
                    spec_events_of(self.events, self.data@.subrange(0, i as int)),
            decreases self.data@.len() - i,
        {
            let ghost before = self.data@;
            let ghost before_events = self.events;
            let mut b = Bpmn::SequenceFlow { id: Id::new(String::new()), name: None, target_ref: Id::new(String::new()) };
            std::mem::swap(&mut b, &mut self.data[i]);
            assert(b == old_data[i as int]);
            finalize_element(&mut b, &ids);
            match &b {
                Bpmn::Event(e) => { self.events.register(e); },
                _ => {},
            }
            self.data.set(i, b);
            proof {
                let sub = self.data@.subrange(0, i + 1);
                assert(sub.drop_last() =~= before.subrange(0, i as int));
                assert(sub.last() == b);
                assert(b.spec_id() == old_data[i as int].spec_id()) by {
                    assert(spec_finalized(ids_s, old_data[i as int], b));
                }
                if old_events.boundaries@.len() == 0 && old_events.catch_event_links@.len() == 0 {
                    assert forall|id: usize, s: Symbol, n: Option<Seq<char>>|
                        #[trigger] spec_last_boundary(self.events.boundaries@, id, s, n) == spec_boundary_of(sub, id, s, n) by {
                        assert(spec_boundary_of(before.subrange(0, i as int), id, s, n)
                            == spec_last_boundary(before_events.boundaries@, id, s, n));
                    }
                    assert forall|n: Seq<char>|
                        #[trigger] spec_last_link(self.events.catch_event_links@, n) == spec_link_of(sub, n) by {
                        assert(spec_link_of(before.subrange(0, i as int), n)
                            == spec_last_link(before_events.catch_event_links@, n));
                    }
                }
            }
            i = i + 1;
        }
        proof {
            assert(self.data@.subrange(0, self.data@.len() as int) =~= self.data@);
            assert(spec_ids(self.data@) =~= spec_ids(old_data)) by {
                assert forall|k: int| 0 <= k < old_data.len() implies
                    #[trigger] spec_ids(self.data@)[k] == spec_ids(old_data)[k] by {
                    assert(spec_finalized(ids_s, old_data[k], self.data@[k]));
                }
            }
        }
    }

    /// The process data, once a start event has been found.
    pub fn into_process_data(self) -> (r: Result<ProcessData, ParseErrorKind>)
        ensures
            self.start is None ==> r matches Err(ParseErrorKind::MissingStartEvent),
            self.start is Some ==> (r matches Ok(pd) && pd.start == self.start->0 && pd.data == self.data
                && pd.events == self.events),
    {
        match self.start {
            Some(start) => Ok(ProcessData { start, data: self.data, events: self.events }),
            None => Err(ParseErrorKind::MissingStartEvent),
        }
    }
}

/// The index of the last id equal to `key`.
fn index_of(ids: &Vec<String>, key: &String) -> (r: Option<usize>)
    ensures
        r == spec_index_of(views(ids@), key@),
{
    let mut i = ids.len();
    proof {
        assert(views(ids@).subrange(0, i as int) =~= views(ids@));
    }
    while i > 0
        invariant
            i <= ids@.len(),
            spec_index_of(views(ids@), key@) == spec_index_of(views(ids@).subrange(0, i as int), key@),
        decreases i,
    {
        proof {
            assert(views(ids@).subrange(0, i as int).drop_last() =~= views(ids@).subrange(0, i - 1));
        }
        if ids[i - 1] == *key {
            return Some(i - 1);
        }
        i = i - 1;
    }
    proof {
        assert(views(ids@).subrange(0, 0) =~= Seq::<Seq<char>>::empty());
    }
    None
}

fn resolve_id(id: &mut Id, ids: &Vec<String>)
    ensures
        *final(id) == spec_resolve_id(views(ids@), *old(id)),
{
    match index_of(ids, &id.bpmn_id) {
        Some(i) => { id.local_id = i; },
        None => {},
    }
}

fn resolve_opt(id: &mut Option<Id>, ids: &Vec<String>)
    ensures
        *final(id) == spec_resolve_opt(views(ids@), *old(id)),
{
    match id {
        Some(x) => { resolve_id(x, ids); },
        None => {},
    }
}

impl Outputs {
    /// Points every output at the element with that id, where there is one.
    pub fn update_local_ids(&mut self, ids: &Vec<String>)
        requires
            old(self).wf(),
        ensures
            final(self).wf(),
            spec_resolved_outputs(views(ids@), *old(self), *final(self)),
    {
        let ghost old_locals = self.local_ids@;
        let mut k: usize = 0;
        while k < self.bpmn_ids.len()
            invariant
                self.wf(),
                k <= self.bpmn_ids@.len(),
                self.bpmn_ids == old(self).bpmn_ids,
                self.local_ids@.len() == old_locals.len(),
                forall|j: int| 0 <= j < old_locals.len() ==> #[trigger] self.local_ids@[j] == if j < k {
                    match spec_index_of(views(ids@), old(self).bpmn_ids@[j]@) {
                        Some(i) => i,
                        None => old_locals[j],
                    }
                } else {
                    old_locals[j]
                },
            decreases self.bpmn_ids@.len() - k,
        {
            match index_of(ids, &self.bpmn_ids[k]) {
                Some(i) => { self.local_ids.set(k, i); },
                None => {},
            }
            k = k + 1;
        }
    }
}

fn finalize_element(b: &mut Bpmn, ids: &Vec<String>)
    requires
        old(b).outputs_ok(),
    ensures
        spec_finalized(views(ids@), *old(b), *final(b)),
{
    match b {
        Bpmn::Activity(a) => { a.outputs.update_local_ids(ids); },
        Bpmn::Event(e) => {
            e.outputs.update_local_ids(ids);
            resolve_opt(&mut e.attached_to_ref, ids);
        },
        Bpmn::Gateway(g) => {
            g.outputs.update_local_ids(ids);
            resolve_opt(&mut g.default, ids);
        },
        Bpmn::SequenceFlow { target_ref, .. } => { resolve_id(target_ref, ids); },
    }
}

} // verus!

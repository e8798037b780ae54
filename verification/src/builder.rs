//! Turns the stream of XML tokens into a diagram.
//!
//! Top level processes are collected in `definitions`; every process and
//! subprocess gets its own process data, and a subprocess's data is stored
//! before the data of the process that contains it.
use vstd::prelude::*;
use crate::bpmn::{Symbol, ElementKind, Bpmn, Event, Activity, Gateway, Id, spec_element_kind, element_kind};
use crate::construction::{ProcessConstruction, spec_ids, spec_index_of, spec_finalized, spec_events_of,
    spec_boundary_of, spec_link_of};
use crate::diagram::{Diagram, ProcessData, process_wf, bpmn_within, spec_is_start, spec_last_boundary,
    spec_last_link};
use crate::error::{ParseError, ParseErrorKind};
use crate::raw::{RawData, spec_attr, spec_collect_attributes, collect_attributes, spec_made_from,
    spec_kind_supported, spec_valid};
use crate::text::{owned, join2};

verus! {

/// A token of the XML input, with names already without namespace prefix.
/// Attributes that could not be read are `None`.
pub enum XmlToken {
    Start { name: String, attributes: Vec<Option<(String, String)>> },
    Empty { name: String, attributes: Vec<Option<(String, String)>> },
    End { name: String },
    Text(String),
    Other,
}

/// No reference of the element has been resolved yet.
pub open spec fn refs_fresh(b: Bpmn) -> bool {
    &&& b.outputs_ok()
    &&& match b.spec_outputs() {
        Some(o) => forall|k: int| 0 <= k < o.local_ids@.len() ==> #[trigger] o.local_ids@[k] == 0,
        None => true,
    }
    &&& match b {
        Bpmn::Event(e) => e.attached_to_ref is Some ==> e.attached_to_ref->0.local_id == 0,
        Bpmn::Gateway(g) => g.default is Some ==> g.default->0.local_id == 0,
        Bpmn::SequenceFlow { target_ref, .. } => target_ref.local_id == 0,
        Bpmn::Activity(_) => true,
    }
}

/// A subprocess points, if anywhere, to process data with an index below `limit`.
pub open spec fn sub_ok(b: Bpmn, limit: nat) -> bool {
    match b {
        Bpmn::Activity(a) => a.data_index is Some ==> a.data_index->0 < limit,
        _ => true,
    }
}

/// A process under construction: elements know their index, nothing is resolved
/// yet, subprocesses point below `limit`, and the start (if found) is a start event.
pub open spec fn pc_inv(pc: ProcessConstruction, limit: nat) -> bool {
    &&& pc.events.boundaries@.len() == 0
    &&& pc.events.catch_event_links@.len() == 0
    &&& forall|i: int| 0 <= i < pc.data@.len() ==> {
        &&& (#[trigger] pc.data@[i]).spec_id().local_id == i
        &&& refs_fresh(pc.data@[i])
        &&& sub_ok(pc.data@[i], limit)
    }
    &&& pc.start is Some ==> pc.start->0 < pc.data@.len() && spec_is_start(pc.data@[pc.start->0 as int])
}

/// Raw data as the reader creates it for an element.
pub open spec fn raw_inv(r: RawData) -> bool {
    r.data_index is None
}

proof fn lemma_boundary_of_bound(data: Seq<Bpmn>, id: usize, s: Symbol, n: Option<Seq<char>>)
    requires
        forall|i: int| 0 <= i < data.len() ==> (#[trigger] data[i]).spec_id().local_id == i,
    ensures
        spec_boundary_of(data, id, s, n) is Some ==> spec_boundary_of(data, id, s, n)->0 < data.len(),
    decreases data.len(),
{
    if data.len() > 0 {
        assert forall|i: int| 0 <= i < data.drop_last().len() implies (#[trigger] data.drop_last()[i]).spec_id().local_id == i by {
            assert(data.drop_last()[i] == data[i]);
        }
        lemma_boundary_of_bound(data.drop_last(), id, s, n);
        assert(data.last() == data[data.len() - 1]);
    }
}

proof fn lemma_link_of_bound(data: Seq<Bpmn>, n: Seq<char>)
    requires
        forall|i: int| 0 <= i < data.len() ==> (#[trigger] data[i]).spec_id().local_id == i,
    ensures
        spec_link_of(data, n) is Some ==> spec_link_of(data, n)->0 < data.len(),
    decreases data.len(),
{
    if data.len() > 0 {
        assert forall|i: int| 0 <= i < data.drop_last().len() implies (#[trigger] data.drop_last()[i]).spec_id().local_id == i by {
            assert(data.drop_last()[i] == data[i]);
        }
        lemma_link_of_bound(data.drop_last(), n);
        assert(data.last() == data[data.len() - 1]);
    }
}

proof fn lemma_index_of_lt(ids: Seq<Seq<char>>, key: Seq<char>)
    ensures
        spec_index_of(ids, key) is Some ==> spec_index_of(ids, key)->0 < ids.len(),
    decreases ids.len(),
{
    if ids.len() > 0 && ids.last() != key {
        lemma_index_of_lt(ids.drop_last(), key);
    }
}

/// A finished construction, resolved, is a consistent process with index `p`.
proof fn lemma_finished(old: ProcessConstruction, new: ProcessConstruction, p: nat)
    requires
        pc_inv(old, p),
        old.start is Some,
        new.start == old.start,
        new.data@.len() == old.data@.len(),
        forall|i: int| 0 <= i < old.data@.len() ==>
            spec_finalized(spec_ids(old.data@), old.data@[i], #[trigger] new.data@[i]),
        spec_events_of(new.events, new.data@),
    ensures
        process_wf(ProcessData { start: new.start->0, data: new.data, events: new.events }, p),
{
    let ids = spec_ids(old.data@);
    let n = old.data@.len();
    assert(n >= 1);
    assert forall|i: int| 0 <= i < n implies
        bpmn_within(#[trigger] new.data@[i], n, p) && new.data@[i].spec_id().local_id == i by {
        let ob = old.data@[i];
        let nb = new.data@[i];
        assert(spec_finalized(ids, ob, nb));
        assert(refs_fresh(ob));
        match (ob, nb) {
            (Bpmn::Activity(a), Bpmn::Activity(b)) => {
                assert forall|k: int| 0 <= k < b.outputs.local_ids@.len() implies #[trigger] b.outputs.local_ids@[k] < n by {
                    lemma_index_of_lt(ids, a.outputs.bpmn_ids@[k]@);
                    assert(a.outputs.local_ids@[k] == 0);
                }
            },
            (Bpmn::Event(a), Bpmn::Event(b)) => {
                assert forall|k: int| 0 <= k < b.outputs.local_ids@.len() implies #[trigger] b.outputs.local_ids@[k] < n by {
                    lemma_index_of_lt(ids, a.outputs.bpmn_ids@[k]@);
                    assert(a.outputs.local_ids@[k] == 0);
                }
                if a.attached_to_ref is Some {
                    lemma_index_of_lt(ids, a.attached_to_ref->0.bpmn_id@);
                }
            },
            (Bpmn::Gateway(a), Bpmn::Gateway(b)) => {
                assert forall|k: int| 0 <= k < b.outputs.local_ids@.len() implies #[trigger] b.outputs.local_ids@[k] < n by {
                    lemma_index_of_lt(ids, a.outputs.bpmn_ids@[k]@);
                    assert(a.outputs.local_ids@[k] == 0);
                }
                if a.default is Some {
                    lemma_index_of_lt(ids, a.default->0.bpmn_id@);
                }
            },
            (Bpmn::SequenceFlow { target_ref: t1, .. }, Bpmn::SequenceFlow { .. }) => {
                lemma_index_of_lt(ids, t1.bpmn_id@);
            },
            _ => {},
        }
    }
    assert forall|id: usize, s: Symbol, nm: Option<Seq<char>>|
        #[trigger] spec_last_boundary(new.events.boundaries@, id, s, nm) is Some implies
        spec_last_boundary(new.events.boundaries@, id, s, nm)->0 < n by {
        lemma_boundary_of_bound(new.data@, id, s, nm);
    }
    assert forall|nm: Seq<char>| #[trigger] spec_last_link(new.events.catch_event_links@, nm) is Some implies
        spec_last_link(new.events.catch_event_links@, nm)->0 < n by {
        lemma_link_of_bound(new.data@, nm);
    }
    let st = old.start->0 as int;
    assert(spec_finalized(ids, old.data@[st], new.data@[st]));
}

/// Element `raw` joins the innermost open process of `b`, which becomes `nb`,
/// with result `r`. With no open process it is dropped. Otherwise it fails
/// on a missing id, an unsupported kind or a sequence flow without target;
/// when it succeeds, the process gains one element made from `raw`.
pub open spec fn spec_joins(b: DataBuilder, raw: RawData, nb: DataBuilder, r: Result<(), ParseError>) -> bool {
    &&& b.process_stack@.len() == 0 ==> r is Ok && nb.process_stack == b.process_stack
    &&& b.process_stack@.len() > 0 ==> {
        &&& nb.process_stack@.len() == b.process_stack@.len()
        &&& nb.process_stack@.drop_last() == b.process_stack@.drop_last()
        &&& (spec_attr(raw.attributes@, crate::bpmn::Attrib::Id) is None
            || !spec_kind_supported(raw.kind)
            || (raw.kind == ElementKind::SequenceFlow && spec_attr(raw.attributes@, crate::bpmn::Attrib::TargetRef) is None)
            ==> (r matches Err(e) && e.source is Bpmn))
        &&& r is Ok ==> exists|x: Bpmn| #[trigger] spec_made_from(raw, x) && spec_valid(x)
            && nb.process_stack@.last().data@ == b.process_stack@.last().data@.push(nb.process_stack@.last().data@.last())
            && nb.process_stack@.last().data@.last().same_but_id(x)
    }
}

/// The innermost open process of `b` closes and `nb` is the state after:
/// its elements, resolved, become the next process data; a top level process
/// joins the definitions, a subprocess becomes an element of its parent that
/// points to that data.
pub open spec fn spec_closes(b: DataBuilder, nb: DataBuilder) -> bool {
    &&& nb.data@.len() == b.data@.len() + 1
    &&& b.process_stack@.len() == 1 ==> nb.definitions@ == b.definitions@.push(b.data@.len() as usize)
    &&& b.process_stack@.len() > 1 ==> nb.definitions == b.definitions
    &&& {
        let pc = b.process_stack@.last();
        let pd = nb.data@.last();
        &&& nb.data@.drop_last() == b.data@
        &&& pc.start is Some && pd.start == pc.start->0
        &&& pd.data@.len() == pc.data@.len()
        &&& forall|i: int| 0 <= i < pc.data@.len() ==>
            spec_finalized(spec_ids(pc.data@), pc.data@[i], #[trigger] pd.data@[i])
        &&& spec_events_of(pd.events, pd.data@)
        &&& nb.process_stack@.len() == b.process_stack@.len() - 1
    }
    &&& b.process_stack@.len() > 1 ==> {
        let k = b.process_stack@.len() - 2;
        let parent = nb.process_stack@[k];
        &&& nb.process_stack@.subrange(0, k) == b.process_stack@.subrange(0, k)
        &&& parent.data@.drop_last() == b.process_stack@[k].data@
        &&& b.stack@.last().kind == ElementKind::SubProcess ==> (parent.data@.last() matches Bpmn::Activity(a)
            && a.activity_type == crate::bpmn::ActivityType::SubProcess
            && a.data_index == Some(b.data@.len() as usize))
    }
}

/// Collects processes from the XML tokens.
pub struct DataBuilder {
    /// Indices into `data` of the top level processes.
    pub definitions: Vec<usize>,
    /// The processes and subprocesses closed so far.
    pub data: Vec<ProcessData>,
    /// The processes and subprocesses still open, innermost last.
    pub process_stack: Vec<ProcessConstruction>,
    /// The elements still open, innermost last.
    pub stack: Vec<RawData>,
    /// The last text read.
    pub text: Option<String>,
}

impl DataBuilder {
    pub open spec fn inv(&self) -> bool {
        &&& forall|p: int| 0 <= p < self.data@.len() ==> process_wf(#[trigger] self.data@[p], p as nat)
        &&& forall|k: int| 0 <= k < self.definitions@.len() ==> #[trigger] self.definitions@[k] < self.data@.len()
        &&& forall|c: int| 0 <= c < self.process_stack@.len() ==> pc_inv(#[trigger] self.process_stack@[c], self.data@.len() as nat)
        &&& forall|r: int| 0 <= r < self.stack@.len() ==> raw_inv(#[trigger] self.stack@[r])
    }

    pub(crate) fn new() -> (r: DataBuilder)
        ensures
            r.inv(),
            r.definitions@.len() == 0,
            r.data@.len() == 0,
            r.process_stack@.len() == 0,
            r.stack@.len() == 0,
            r.text is None,
    {
        DataBuilder { definitions: Vec::new(), data: Vec::new(), process_stack: Vec::new(), stack: Vec::new(), text: None }
    }

    /// An element starts.
    pub(crate) fn add(&mut self, raw: RawData)
        requires
            old(self).inv(),
            raw_inv(raw),
        ensures
            final(self).inv(),
            final(self).stack@ == old(self).stack@.push(raw),
            final(self).definitions == old(self).definitions,
            final(self).data == old(self).data,
            final(self).process_stack == old(self).process_stack,
            final(self).text == old(self).text,
    {
        self.stack.push(raw);
    }

    /// A process or subprocess starts.
    pub(crate) fn add_new_process(&mut self, raw: RawData)
        requires
            old(self).inv(),
            raw_inv(raw),
        ensures
            final(self).inv(),
            final(self).stack@ == old(self).stack@.push(raw),
            final(self).process_stack@.len() == old(self).process_stack@.len() + 1,
            final(self).process_stack@.drop_last() == old(self).process_stack@,
            final(self).process_stack@.last().start is None,
            final(self).process_stack@.last().data@.len() == 0,
            final(self).definitions == old(self).definitions,
            final(self).data == old(self).data,
            final(self).text == old(self).text,
    {
        let ghost old_ps = self.process_stack@;
        self.process_stack.push(ProcessConstruction::new());
        assert(self.process_stack@.drop_last() =~= old_ps);
        self.add(raw);
    }

    /// A complete element joins the innermost process, if there is one.
    pub(crate) fn add_to_process(&mut self, raw: RawData) -> (r: Result<(), ParseError>)
        requires
            old(self).inv(),
            raw_inv(raw),
        ensures
            r is Ok ==> final(self).inv(),
            final(self).stack == old(self).stack,
            final(self).definitions == old(self).definitions,
            final(self).data == old(self).data,
            final(self).text == old(self).text,
            spec_joins(*old(self), raw, *final(self), r),
    {
        let n = self.process_stack.len();
        if n == 0 {
            return Ok(());
        }
        let ghost old_ps = self.process_stack@;
        let ghost raw_g = raw;
        let bpmn = match Bpmn::try_from_raw(raw) {
            Ok(b) => b,
            Err(e) => { return Err(ParseError { source: ParseErrorKind::Bpmn(e) }); },
        };
        let ghost bg = bpmn;
        let mut pc = ProcessConstruction::new();
        std::mem::swap(&mut pc, &mut self.process_stack[n - 1]);
        assert(pc == old_ps[n - 1]);
        let res = pc.add(bpmn);
        self.process_stack.set(n - 1, pc);
        assert(self.process_stack@.drop_last() =~= old_ps.drop_last());
        match res {
            Ok(()) => {
                proof {
                    assert(spec_made_from(raw_g, bg));
                    let c = (n - 1) as int;
                    let npc = self.process_stack@[c];
                    let opc = old_ps[c];
                    assert(npc.data@.drop_last() == opc.data@);
                    assert(npc.data@ =~= opc.data@.push(npc.data@.last()));
                    assert forall|i: int| 0 <= i < npc.data@.len() implies {
                        &&& (#[trigger] npc.data@[i]).spec_id().local_id == i
                        &&& refs_fresh(npc.data@[i])
                        &&& sub_ok(npc.data@[i], self.data@.len() as nat)
                    } by {
                        if i < opc.data@.len() {
                            assert(npc.data@[i] == opc.data@[i]);
                        } else {
                            assert(npc.data@[i] == npc.data@.last());
                        }
                    }
                    assert forall|cc: int| 0 <= cc < self.process_stack@.len() implies
                        pc_inv(#[trigger] self.process_stack@[cc], self.data@.len() as nat) by {
                        if cc < c {
                            assert(self.process_stack@[cc] == old_ps[cc]);
                        }
                    }
                }
                Ok(())
            },
            Err(e) => Err(e),
        }
    }

    /// An event definition gives the innermost open element its symbol.
    pub(crate) fn update_symbol(&mut self, symbol: Option<Symbol>)
        requires
            old(self).inv(),
        ensures
            final(self).inv(),
            old(self).stack@.len() == 0 ==> final(self).stack == old(self).stack,
            old(self).stack@.len() > 0 ==> final(self).stack@ == old(self).stack@.update(
                old(self).stack@.len() - 1, RawData { symbol, ..old(self).stack@.last() }),
            final(self).process_stack == old(self).process_stack,
            final(self).definitions == old(self).definitions,
            final(self).data == old(self).data,
            final(self).text == old(self).text,
    {
        let n = self.stack.len();
        if n > 0 {
            self.stack[n - 1].symbol = symbol;
        }
    }

    /// An `outgoing` or `incoming` element ends: the last text read becomes an
    /// output or input of the innermost open element.
    pub(crate) fn add_text_to_parent(&mut self, outgoing: bool)
        requires
            old(self).inv(),
        ensures
            final(self).inv(),
            old(self).stack@.len() > 0 && old(self).text is Some ==> {
                &&& final(self).text is None
                &&& final(self).stack@.len() == old(self).stack@.len()
                &&& final(self).stack@.drop_last() == old(self).stack@.drop_last()
                &&& if outgoing {
                    final(self).stack@.last() == RawData { outputs: final(self).stack@.last().outputs, ..old(self).stack@.last() }
                    && final(self).stack@.last().outputs@ == old(self).stack@.last().outputs@.push(old(self).text->0)
                } else {
                    final(self).stack@.last() == RawData { inputs: final(self).stack@.last().inputs, ..old(self).stack@.last() }
                    && final(self).stack@.last().inputs@ == old(self).stack@.last().inputs@.push(old(self).text->0)
                }
            },
            !(old(self).stack@.len() > 0 && old(self).text is Some) ==> *final(self) == *old(self),
            final(self).process_stack == old(self).process_stack,
            final(self).definitions == old(self).definitions,
            final(self).data == old(self).data,
    {
        let n = self.stack.len();
        if n > 0 {
            match self.text.take() {
                Some(t) => {
                    let ghost old_stack = self.stack@;
                    if outgoing {
                        self.stack[n - 1].outputs.push(t);
                    } else {
                        self.stack[n - 1].inputs.push(t);
                    }
                    proof {
                        assert(self.stack@.drop_last() =~= old_stack.drop_last());
                    }
                },
                None => {},
            }
        }
    }

    /// Text was read; it is kept until the next text replaces it.
    pub(crate) fn add_text(&mut self, value: String)
        requires
            old(self).inv(),
        ensures
            final(self).inv(),
            final(self).text == Some(value),
            final(self).stack == old(self).stack,
            final(self).process_stack == old(self).process_stack,
            final(self).definitions == old(self).definitions,
            final(self).data == old(self).data,
    {
        self.text = Some(value);
    }

    /// An element ends: it joins the innermost process. A sequence flow with
    /// an end tag of its own is a conditional flow, which is not supported.
    pub(crate) fn end(&mut self) -> (r: Result<(), ParseError>)
        requires
            old(self).inv(),
        ensures
            r is Ok ==> final(self).inv(),
            old(self).stack@.len() == 0 ==> r is Ok && *final(self) == *old(self),
            old(self).stack@.len() > 0 && old(self).stack@.last().kind == ElementKind::SequenceFlow ==>
                (r matches Err(e) && spec_conditional_flow_error(old(self).stack@.last(), e)),
            old(self).stack@.len() > 0 ==> final(self).stack@ == old(self).stack@.drop_last(),
            old(self).stack@.len() > 0 && old(self).stack@.last().kind != ElementKind::SequenceFlow ==>
                spec_joins(*old(self), old(self).stack@.last(), *final(self), r),
            final(self).data == old(self).data,
            final(self).definitions == old(self).definitions,
    {
        if self.stack.len() == 0 {
            return Ok(());
        }
        match self.stack.pop() {
            Some(raw) => {
                match check_unsupported(&raw) {
                    Ok(()) => self.add_to_process(raw),
                    Err(e) => Err(e),
                }
            },
            None => Ok(()),
        }
    }

    /// A process or subprocess ends. A subprocess becomes an element of its
    /// parent; a top level process is recorded among the definitions. Either
    /// way its collected elements are resolved and stored as process data.
    pub(crate) fn end_process(&mut self) -> (r: Result<(), ParseError>)
        requires
            old(self).inv(),
        ensures
            r is Ok ==> final(self).inv(),
            old(self).stack@.len() == 0 || old(self).process_stack@.len() == 0 ==>
                (r matches Err(e) && e.source matches ParseErrorKind::ProcessBuild(m) && m@ == "couldn't build process"@),
            r is Ok ==> spec_closes(*old(self), *final(self)),
            r is Ok && old(self).process_stack@.len() == 1 ==> final(self).process_stack@.len() == 0,
            old(self).stack@.len() > 0 && old(self).process_stack@.len() == 1 && old(self).process_stack@.last().start is None
                ==> (r matches Err(e) && e.source is MissingStartEvent),
    {
        let raw = self.stack.pop();
        let pc = self.process_stack.pop();
        let (mut raw, mut pc) = match (raw, pc) {
            (Some(r), Some(p)) => (r, p),
            _ => { return Err(ParseError { source: ParseErrorKind::ProcessBuild(owned("couldn't build process")) }); },
        };
        let index = self.data.len();
        let n = self.process_stack.len();
        if n > 0 {
            // A subprocess: its data goes where the next process data goes.
            raw.data_index = Some(index);
            let bpmn = match Bpmn::try_from_raw(raw) {
                Ok(b) => b,
                Err(e) => { return Err(ParseError { source: ParseErrorKind::Bpmn(e) }); },
            };
            let ghost bg = bpmn;
            proof {
                if raw.kind == ElementKind::SubProcess {
                    let b = choose|b: Bpmn| #[trigger] spec_made_from(raw, b) && spec_valid(b) && bg == b;
                    assert(spec_made_from(raw, bg));
                }
            }
            let ghost old_ps = self.process_stack@;
            let mut parent = ProcessConstruction::new();
            std::mem::swap(&mut parent, &mut self.process_stack[n - 1]);
            assert(parent == old_ps[n - 1]);
            let ghost old_parent = parent;
            let res = parent.add(bpmn);
            self.process_stack.set(n - 1, parent);
            match res {
                Ok(()) => {},
                Err(e) => { return Err(e); },
            }
            proof {
                let c = (n - 1) as int;
                let npc = self.process_stack@[c];
                assert(npc.data@ =~= old_parent.data@.push(npc.data@.last()));
                assert forall|i: int| 0 <= i < npc.data@.len() implies {
                    &&& (#[trigger] npc.data@[i]).spec_id().local_id == i
                    &&& refs_fresh(npc.data@[i])
                    &&& sub_ok(npc.data@[i], (index + 1) as nat)
                } by {
                    if i < old_parent.data@.len() {
                        assert(npc.data@[i] == old_parent.data@[i]);
                    } else {
                        assert(npc.data@[i] == npc.data@.last());
                    }
                }
            }
        } else {
            self.definitions.push(index);
        }
        let ghost before_finalize = pc;
        proof {
            assert forall|i: int| 0 <= i < pc.data@.len() implies (#[trigger] pc.data@[i]).outputs_ok() by {
                assert(refs_fresh(pc.data@[i]));
            }
        }
        pc.finalize();
        let ghost after_finalize = pc;
        let pd = match pc.into_process_data() {
            Ok(pd) => pd,
            Err(kind) => { return Err(ParseError { source: kind }); },
        };
        proof {
            lemma_finished(before_finalize, after_finalize, index as nat);
            assert(pd == (ProcessData { start: after_finalize.start->0, data: after_finalize.data, events: after_finalize.events }));
        }
        self.data.push(pd);
        proof {
            assert(self.data@.drop_last() =~= old(self).data@);
            if n > 0 {
                let k = (n - 1) as int;
                assert(self.process_stack@.subrange(0, k) =~= old(self).process_stack@.subrange(0, k));
                assert(self.process_stack@[k].data@.drop_last() =~= old(self).process_stack@[k].data@);
            }
            assert forall|p: int| 0 <= p < self.data@.len() implies process_wf(#[trigger] self.data@[p], p as nat) by {
                if p < index {
                    assert(self.data@[p] == old(self).data@[p]);
                }
            }
            assert forall|c: int| 0 <= c < self.process_stack@.len() implies
                pc_inv(#[trigger] self.process_stack@[c], self.data@.len() as nat) by {
                let pc_c = self.process_stack@[c];
                if c < n - 1 {
                    assert(pc_c == old(self).process_stack@[c]);
                    assert(pc_inv(old(self).process_stack@[c], index as nat));
                } else {
                    assert(pc_c.data@.len() >= 1);
                }
                assert forall|i: int| 0 <= i < pc_c.data@.len() implies sub_ok(#[trigger] pc_c.data@[i], self.data@.len() as nat) by {
                    if c < n - 1 {
                        assert(sub_ok(pc_c.data@[i], index as nat));
                    }
                }
            }
            assert forall|rr: int| 0 <= rr < self.stack@.len() implies raw_inv(#[trigger] self.stack@[rr]) by {
                assert(self.stack@[rr] == old(self).stack@[rr]);
            }
        }
        Ok(())
    }

    /// The diagram of everything collected.
    pub(crate) fn into_diagram(self) -> (r: Diagram)
        requires
            self.inv(),
        ensures
            r.wf(),
            r.definitions == self.definitions,
            r.data == self.data,
    {
        Diagram::new(self.definitions, self.data)
    }
}

/// Kinds of element that are collected from start tag to end tag.
pub open spec fn spec_is_element(k: ElementKind) -> bool {
    match k {
        ElementKind::Event(_) | ElementKind::Activity(_) | ElementKind::Gateway(_) | ElementKind::SequenceFlow => true,
        _ => false,
    }
}

/// Kinds of element that hold a process of their own.
pub open spec fn spec_is_container(k: ElementKind) -> bool {
    k == ElementKind::Process || k == ElementKind::SubProcess
}

/// `r` is the raw data that a start tag with this name and these attributes opens.
pub open spec fn spec_opened(r: RawData, name: String, attributes: Seq<Option<(String, String)>>) -> bool {
    &&& r.bpmn_type == name
    &&& r.kind == spec_element_kind(name@)
    &&& r.attributes@ == spec_collect_attributes(attributes)
    &&& r.symbol is None
    &&& r.data_index is None
    &&& r.outputs@.len() == 0
    &&& r.inputs@.len() == 0
}

/// The token ends a process or subprocess.
pub open spec fn spec_closes_container(t: XmlToken) -> bool {
    t matches XmlToken::End { name } && spec_is_container(spec_element_kind(name@))
}

/// Tokens that can fail: an empty sequence flow, and the end of an element,
/// a process or a subprocess. Every other token is always accepted.
pub open spec fn spec_may_fail(t: XmlToken) -> bool {
    ||| t matches XmlToken::Empty { name, .. } && spec_element_kind(name@) == ElementKind::SequenceFlow
    ||| t matches XmlToken::End { name } && (spec_is_element(spec_element_kind(name@))
        || spec_is_container(spec_element_kind(name@)))
}

/// How many tokens end a process or subprocess.
pub open spec fn spec_container_ends(ts: Seq<XmlToken>) -> nat
    decreases ts.len(),
{
    if ts.len() == 0 {
        0
    } else {
        spec_container_ends(ts.drop_last()) + if spec_closes_container(ts.last()) { 1nat } else { 0nat }
    }
}

/// What handling token `t` does to the builder state `b`: the state becomes
/// `nb` and the result is `r`.
pub open spec fn spec_feed(b: DataBuilder, token: XmlToken, nb: DataBuilder, r: Result<(), ParseError>) -> bool {
    &&& r is Ok ==> nb.inv()
    &&& !spec_may_fail(token) ==> r is Ok
    &&& !spec_closes_container(token) ==> nb.data == b.data
    &&& spec_closes_container(token) && r is Ok ==> nb.data@.len() == b.data@.len() + 1
    &&& token is Other ==> r is Ok && nb == b
    &&& token matches XmlToken::Text(t) ==> r is Ok && nb.text == Some(t)
        && nb.stack == b.stack && nb.process_stack == b.process_stack
        && nb.data == b.data && nb.definitions == b.definitions
    &&& token matches XmlToken::Start { name, attributes } ==> {
        &&& r is Ok
        &&& (spec_is_element(spec_element_kind(name@)) || spec_is_container(spec_element_kind(name@))) ==> {
            &&& nb.stack@.len() == b.stack@.len() + 1
            &&& nb.stack@.drop_last() == b.stack@
            &&& spec_opened(nb.stack@.last(), name, attributes@)
        }
        &&& spec_is_container(spec_element_kind(name@)) ==>
            nb.process_stack@.len() == b.process_stack@.len() + 1
        &&& !(spec_is_element(spec_element_kind(name@)) || spec_is_container(spec_element_kind(name@)))
            ==> nb == b
    }
    &&& token matches XmlToken::Empty { name, attributes } ==> {
        &&& spec_element_kind(name@) matches ElementKind::Definition(sym) ==> r is Ok
            && nb.process_stack == b.process_stack
            && (b.stack@.len() > 0 ==> nb.stack@.last().symbol == Some(sym))
        &&& spec_element_kind(name@) is SequenceFlow ==> nb.stack == b.stack && exists|raw: RawData|
            #[trigger] spec_opened(raw, name, attributes@) && spec_joins(b, raw, nb, r)
        &&& !(spec_element_kind(name@) is Definition || spec_element_kind(name@) is SequenceFlow)
            ==> r is Ok && nb == b
    }
    &&& token matches XmlToken::End { name } ==> {
        &&& spec_element_kind(name@) == ElementKind::Outgoing && b.stack@.len() > 0
            && b.text is Some ==> r is Ok
            && nb.stack@.last().outputs@ == b.stack@.last().outputs@.push(b.text->0)
        &&& spec_element_kind(name@) == ElementKind::Incoming && b.stack@.len() > 0
            && b.text is Some ==> r is Ok
            && nb.stack@.last().inputs@ == b.stack@.last().inputs@.push(b.text->0)
        &&& spec_is_element(spec_element_kind(name@)) && b.stack@.len() > 0 ==>
            nb.stack@ == b.stack@.drop_last()
        &&& spec_is_element(spec_element_kind(name@)) && b.stack@.len() > 0
            && b.stack@.last().kind == ElementKind::SequenceFlow ==>
            (r matches Err(e) && spec_conditional_flow_error(b.stack@.last(), e))
        &&& spec_is_element(spec_element_kind(name@)) && b.stack@.len() > 0
            && b.stack@.last().kind != ElementKind::SequenceFlow ==> spec_joins(b, b.stack@.last(), nb, r)
        &&& spec_is_container(spec_element_kind(name@)) && r is Ok ==> spec_closes(b, nb)
        &&& spec_is_container(spec_element_kind(name@))
            && (b.stack@.len() == 0 || b.process_stack@.len() == 0) ==> r is Err
        &&& spec_is_container(spec_element_kind(name@)) && b.stack@.len() > 0
            && b.process_stack@.len() == 1 && b.process_stack@.last().start is None
            ==> (r matches Err(e) && e.source is MissingStartEvent)
        &&& !(spec_is_element(spec_element_kind(name@)) || spec_is_container(spec_element_kind(name@))
            || spec_element_kind(name@) == ElementKind::Outgoing || spec_element_kind(name@) == ElementKind::Incoming)
            ==> r is Ok && nb == b
    }
}

impl DataBuilder {
    /// Handles one XML token.
    pub(crate) fn feed(&mut self, token: XmlToken) -> (r: Result<(), ParseError>)
        requires
            old(self).inv(),
        ensures
            spec_feed(*old(self), token, *final(self), r),
    {
        match token {
            XmlToken::Start { name, attributes } => {
                let kind = element_kind(name.as_str());
                match kind {
                    ElementKind::Event(_) | ElementKind::Activity(_) | ElementKind::Gateway(_)
                    | ElementKind::SequenceFlow => {
                        let attrs = collect_attributes(&attributes);
                        let ghost before = self.stack@;
                        self.add(RawData::new(name, kind, attrs));
                        assert(self.stack@.drop_last() =~= before);
                    },
                    ElementKind::Process | ElementKind::SubProcess => {
                        let attrs = collect_attributes(&attributes);
                        let ghost before = self.stack@;
                        self.add_new_process(RawData::new(name, kind, attrs));
                        assert(self.stack@.drop_last() =~= before);
                    },
                    _ => {},
                }
                Ok(())
            },
            XmlToken::Empty { name, attributes } => {
                let kind = element_kind(name.as_str());
                match kind {
                    ElementKind::Definition(sym) => {
                        self.update_symbol(Some(sym));
                        Ok(())
                    },
                    ElementKind::SequenceFlow => {
                        let attrs = collect_attributes(&attributes);
                        let ghost gname = name;
                        let ghost gattrs = attributes@;
                        let rd = RawData::new(name, kind, attrs);
                        let ghost grd = rd;
                        let res = self.add_to_process(rd);
                        assert(spec_opened(grd, gname, gattrs));
                        res
                    },
                    _ => Ok(()),
                }
            },
            XmlToken::End { name } => {
                let kind = element_kind(name.as_str());
                match kind {
                    ElementKind::Outgoing => {
                        self.add_text_to_parent(true);
                        Ok(())
                    },
                    ElementKind::Incoming => {
                        self.add_text_to_parent(false);
                        Ok(())
                    },
                    ElementKind::Event(_) | ElementKind::Activity(_) | ElementKind::Gateway(_)
                    | ElementKind::SequenceFlow => self.end(),
                    ElementKind::Process | ElementKind::SubProcess => self.end_process(),
                    _ => Ok(()),
                }
            },
            XmlToken::Text(t) => {
                self.add_text(t);
                Ok(())
            },
            XmlToken::Other => Ok(()),
        }
    }
}

/// A builder that has not seen any token yet.
pub open spec fn spec_fresh_builder(b: DataBuilder) -> bool {
    &&& b.definitions@.len() == 0
    &&& b.data@.len() == 0
    &&& b.process_stack@.len() == 0
    &&& b.stack@.len() == 0
    &&& b.text is None
}

/// Parsing `ts` went through the builder states `bs`: from a fresh builder,
/// each token in turn is handled as `spec_feed` says, up to the first token
/// that fails. `r` is the diagram of the last state when every token was
/// handled, else the error of the token that failed.
pub open spec fn spec_parse_run(ts: Seq<XmlToken>, bs: Seq<DataBuilder>, r: Result<Diagram, ParseError>) -> bool {
    &&& 1 <= bs.len() <= ts.len() + 1
    &&& spec_fresh_builder(bs[0])
    &&& forall|i: int| 0 <= i < bs.len() - 1 ==> spec_feed(bs[i], #[trigger] ts[i], bs[i + 1], Ok(()))
    &&& if bs.len() == ts.len() + 1 {
        r matches Ok(d) && d.wf() && d.definitions == bs.last().definitions && d.data == bs.last().data
    } else {
        r matches Err(e) && exists|nb: DataBuilder| #[trigger] spec_feed(bs.last(), ts[bs.len() - 1], nb, Err(e))
    }
}

/// Builds the diagram from a sequence of XML tokens, stopping at the first error.
/// The result is what handling the tokens in turn gives (see `spec_parse_run`);
/// a diagram that comes out is consistent (see `Diagram::wf`) and holds one
/// process data for each process or subprocess that the tokens close.
pub fn parse_tokens(tokens: Vec<XmlToken>) -> (r: Result<Diagram, ParseError>)
    ensures
        exists|bs: Seq<DataBuilder>| #[trigger] spec_parse_run(tokens@, bs, r),
        r matches Ok(d) ==> d.wf() && d.data@.len() == spec_container_ends(tokens@),
        (forall|i: int| 0 <= i < tokens@.len() ==> !spec_may_fail(#[trigger] tokens@[i])) ==> r is Ok,
        tokens@.len() == 0 ==> (r matches Ok(d) && d.definitions@.len() == 0 && d.data@.len() == 0),
{
    let mut builder = DataBuilder::new();
    let ghost mut trace: Seq<DataBuilder> = seq![builder];
    if tokens.len() == 0 {
        let d = builder.into_diagram();
        assert(spec_parse_run(tokens@, trace, Ok(d)));
        return Ok(d);
    }
    let ghost all = tokens@;
    let mut rest = tokens;
    let n = rest.len();
    let mut i: usize = 0;
    while i < n
        invariant
            builder.inv(),
            0 < n,
            all == tokens@,
            i <= n == rest@.len() == all.len(),
            forall|k: int| i <= k < n ==> #[trigger] rest@[k] == all[k],
            builder.data@.len() == spec_container_ends(all.subrange(0, i as int)),
            trace.len() == i + 1,
            trace.last() == builder,
            spec_fresh_builder(trace[0]),
            forall|k: int| 0 <= k < i ==> spec_feed(trace[k], #[trigger] all[k], trace[k + 1], Ok(())),
        decreases n - i,
    {
        let mut t = XmlToken::Other;
        std::mem::swap(&mut t, &mut rest[i]);
        assert(t == all[i as int]);
        proof {
            assert(all.subrange(0, i + 1).drop_last() =~= all.subrange(0, i as int));
            assert(all.subrange(0, i + 1).last() == all[i as int]);
        }
        let ghost pre = builder;
        match builder.feed(t) {
            Ok(()) => {},
            Err(e) => {
                proof {
                    assert(spec_feed(trace.last(), all[i as int], builder, Err(e)));
                    assert(spec_parse_run(all, trace, Err(e)));
                }
                return Err(e);
            },
        }
        proof {
            let old_trace = trace;
            trace = trace.push(builder);
            assert forall|k: int| 0 <= k < i + 1 implies spec_feed(trace[k], #[trigger] all[k], trace[k + 1], Ok(())) by {
                if k < i {
                    assert(trace[k] == old_trace[k] && trace[k + 1] == old_trace[k + 1]);
                } else {
                    assert(trace[k] == pre);
                }
            }
        }
        i = i + 1;
    }
    proof {
        assert(all.subrange(0, n as int) =~= all);
    }
    let d = builder.into_diagram();
    assert(spec_parse_run(all, trace, Ok(d)));
    Ok(d)
}

/// The error for a sequence flow with an end tag of its own, a conditional
/// sequence flow: not supported, named by its name or else its id; without
/// either, the missing id.
pub open spec fn spec_conditional_flow_error(raw: RawData, e: ParseError) -> bool {
    let name = spec_attr(raw.attributes@, crate::bpmn::Attrib::Name);
    let id = spec_attr(raw.attributes@, crate::bpmn::Attrib::Id);
    if name is Some || id is Some {
        e.source matches ParseErrorKind::NotSupported(m)
            && m@ == (if name is Some { name->0@ } else { id->0@ }) + ": conditional sequence flow"@
    } else {
        e.source matches ParseErrorKind::Bpmn(crate::bpmn::BpmnError::MissingId(t)) && t@ == raw.bpmn_type@
    }
}

/// A sequence flow that has an end tag of its own is a conditional sequence flow.
pub fn check_unsupported(raw: &RawData) -> (r: Result<(), ParseError>)
    ensures
        raw.kind != ElementKind::SequenceFlow ==> r is Ok,
        raw.kind == ElementKind::SequenceFlow ==> (r matches Err(e) && spec_conditional_flow_error(*raw, e)),
{
    if raw.kind == ElementKind::SequenceFlow {
        match raw.name_or_id() {
            Ok(n) => Err(ParseError { source: ParseErrorKind::NotSupported(join2(n.as_str(), ": conditional sequence flow")) }),
            Err(e) => Err(ParseError { source: ParseErrorKind::Bpmn(e) }),
        }
    } else {
        Ok(())
    }
}

} // verus!

//! Building a runnable process: the diagram, and the user functions
//! registered for its tasks, gateways and events.
use vstd::prelude::*;
use crate::api::{Exclusive, Inclusive, IntermediateEvent, Task};
use crate::bpmn::{BpmnType, Symbol};
use crate::diagram::{Diagram, spec_after_install, spec_has_text, spec_missing_in_processes, spec_has_function,
    spec_map_within, spec_functions_registered, spec_function_registered};
use crate::error::{BuildError, ParseError};
use crate::func_map::FuncMap;
use crate::handler::Handler;
use crate::reader::read_bpmn;
use crate::builder::{DataBuilder, XmlToken, spec_parse_run};
use crate::text::{owned, join_with, spec_join};
use crate::scaffold::spec_scaffold;

verus! {

/// Process builder that contains information from the BPMN file and registered functions
#[verifier::reject_recursive_types(T)]
pub struct ProcessBuilder<T> {
    diagram: Diagram,
    handler: Handler<T>,
    func_map: FuncMap,
    /// How many functions of each kind are registered: tasks, exclusive,
    /// inclusive and event-based gateways, end and intermediate events.
    counts: (usize, usize, usize, usize, usize),
    end_callback: Option<usize>,
    intermediate_throw_callback: Option<usize>,
    intermediate_catch_callback: Option<usize>,
}

impl<T> ProcessBuilder<T> {
    #[verifier::type_invariant]
    spec fn builder_inv(&self) -> bool {
        &&& self.diagram.wf()
        &&& self.handler.spec_counts() == spec_nat_counts(self.counts)
        &&& spec_map_within(self.func_map@, self.handler.spec_counts())
        &&& spec_callbacks_registered((self.end_callback, self.intermediate_throw_callback,
            self.intermediate_catch_callback), self.handler.spec_counts())
    }

    /// The diagram the builder was made from.
    pub closed spec fn spec_diagram(&self) -> Diagram {
        self.diagram
    }

    /// The registered functions by kind and name (or id), each with its index
    /// among the functions of its kind.
    pub closed spec fn spec_functions(&self) -> Map<(BpmnType, Seq<char>), usize> {
        self.func_map@
    }

    /// How many functions of each kind are registered.
    pub closed spec fn spec_counts(&self) -> (usize, usize, usize, usize, usize) {
        self.counts
    }

    /// The registered end, intermediate throw and intermediate catch functions,
    /// by index among the event functions.
    pub closed spec fn spec_event_callbacks(&self) -> (Option<usize>, Option<usize>, Option<usize>) {
        (self.end_callback, self.intermediate_throw_callback, self.intermediate_catch_callback)
    }

    /// A builder for a diagram, with no function registered.
    pub fn from_diagram(diagram: Diagram) -> (r: ProcessBuilder<T>)
        requires
            diagram.wf(),
        ensures
            r.spec_diagram() == diagram,
            r.spec_functions() == Map::<(BpmnType, Seq<char>), usize>::empty(),
            r.spec_counts() == (0usize, 0usize, 0usize, 0usize, 0usize),
            r.spec_event_callbacks() == (None::<usize>, None::<usize>, None::<usize>),
    {
        ProcessBuilder {
            diagram,
            handler: Handler::new(),
            func_map: FuncMap::new(),
            counts: (0, 0, 0, 0, 0),
            end_callback: None,
            intermediate_throw_callback: None,
            intermediate_catch_callback: None,
        }
    }

    /// Create new process builder and initialize it from BPMN content.
    pub fn parse(s: &str) -> (r: Result<ProcessBuilder<T>, ParseError>)
        ensures
            r matches Ok(b) ==> b.spec_diagram().wf() && b.spec_functions() == Map::<(BpmnType, Seq<char>), usize>::empty()
                && b.spec_counts() == (0usize, 0usize, 0usize, 0usize, 0usize)
                && b.spec_event_callbacks() == (None::<usize>, None::<usize>, None::<usize>),
            r matches Ok(b) ==> exists|ts: Seq<XmlToken>, bs: Seq<DataBuilder>|
                #[trigger] spec_parse_run(ts, bs, Ok::<Diagram, ParseError>(b.spec_diagram())),
            r is Err && !(r->Err_0.source is Xml || r->Err_0.source is Encoding) ==>
                exists|ts: Seq<XmlToken>, bs: Seq<DataBuilder>|
                    #[trigger] spec_parse_run(ts, bs, Err::<Diagram, ParseError>(r->Err_0)),
    {
        match read_bpmn(s) {
            Ok(diagram) => Ok(ProcessBuilder::from_diagram(diagram)),
            Err(e) => Err(e),
        }
    }

    /// Generate code from all the tasks and gateways of the diagram: a
    /// starting point that registers a default function for each.
    pub fn scaffold(&self) -> (r: String)
        ensures
            r@ == spec_scaffold(self.spec_diagram()),
    {
        self.diagram.scaffold()
    }

    /// # Task
    ///
    /// All tasks is used in the same way regardless of which icon is used in the BPMN diagram. If a task name
    /// is given then every task with same name will use the same closure. Register a task by **name** or by **id**.
    /// Return `Task::Default` to follow the regular flow, or a boundary by symbol and optional name.
    pub fn task<F>(self, name: &str, func: F) -> (r: Self)
        where F: Fn(&T) -> Task + 'static + Sync + Send,
        requires
            self.spec_counts().0 < usize::MAX,
        ensures
            r.spec_diagram() == self.spec_diagram(),
            r.spec_functions() == self.spec_functions().insert((BpmnType::Task, name@), self.spec_counts().0),
            r.spec_counts() == (add1(self.spec_counts().0), self.spec_counts().1, self.spec_counts().2,
                self.spec_counts().3, self.spec_counts().4),
            r.spec_event_callbacks() == self.spec_event_callbacks(),
    {
        proof { use_type_invariant(&self); }
        let ProcessBuilder {
            diagram, mut handler, mut func_map, counts, end_callback, intermediate_throw_callback,
            intermediate_catch_callback,
        } = self;
        let index = counts.0;
        handler.push_task(func);
        func_map.insert(BpmnType::Task, owned(name), index);
        ProcessBuilder {
            diagram, handler, func_map, counts: (index + 1, counts.1, counts.2, counts.3, counts.4), end_callback: end_callback,
            intermediate_throw_callback: intermediate_throw_callback, intermediate_catch_callback: intermediate_catch_callback,
        }
    }

    /// # Exclusive gateway
    ///
    /// An exclusive gateway can select a flow named after the outgoing sequence flow.
    pub fn exclusive<F>(self, name: &str, func: F) -> (r: Self)
        where F: Fn(&T) -> Exclusive + 'static + Sync + Send,
        requires
            self.spec_counts().1 < usize::MAX,
        ensures
            r.spec_diagram() == self.spec_diagram(),
            r.spec_functions() == self.spec_functions().insert((BpmnType::Exclusive, name@), self.spec_counts().1),
            r.spec_counts() == (self.spec_counts().0, add1(self.spec_counts().1), self.spec_counts().2,
                self.spec_counts().3, self.spec_counts().4),
            r.spec_event_callbacks() == self.spec_event_callbacks(),
    {
        proof { use_type_invariant(&self); }
        let ProcessBuilder {
            diagram, mut handler, mut func_map, counts, end_callback, intermediate_throw_callback,
            intermediate_catch_callback,
        } = self;
        let index = counts.1;
        handler.push_exclusive(func);
        func_map.insert(BpmnType::Exclusive, owned(name), index);
        ProcessBuilder {
            diagram, handler, func_map, counts: (counts.0, index + 1, counts.2, counts.3, counts.4), end_callback: end_callback,
            intermediate_throw_callback: intermediate_throw_callback, intermediate_catch_callback: intermediate_catch_callback,
        }
    }

    /// # Inclusive gateway
    ///
    /// An inclusive gateway can select one or many flows named after the outgoing sequence flow. A default flow
    /// should always be available in the BPMN diagram. Do not forget to merge the flows using a converging gateway.
    /// Only balanced gateway construction supported.
    pub fn inclusive<F>(self, name: &str, func: F) -> (r: Self)
        where F: Fn(&T) -> Inclusive + 'static + Sync + Send,
        requires
            self.spec_counts().2 < usize::MAX,
        ensures
            r.spec_diagram() == self.spec_diagram(),
            r.spec_functions() == self.spec_functions().insert((BpmnType::Inclusive, name@), self.spec_counts().2),
            r.spec_counts() == (self.spec_counts().0, self.spec_counts().1, add1(self.spec_counts().2),
                self.spec_counts().3, self.spec_counts().4),
            r.spec_event_callbacks() == self.spec_event_callbacks(),
    {
        proof { use_type_invariant(&self); }
        let ProcessBuilder {
            diagram, mut handler, mut func_map, counts, end_callback, intermediate_throw_callback,
            intermediate_catch_callback,
        } = self;
        let index = counts.2;
        handler.push_inclusive(func);
        func_map.insert(BpmnType::Inclusive, owned(name), index);
        ProcessBuilder {
            diagram, handler, func_map, counts: (counts.0, counts.1, index + 1, counts.3, counts.4), end_callback: end_callback,
            intermediate_throw_callback: intermediate_throw_callback, intermediate_catch_callback: intermediate_catch_callback,
        }
    }

    /// # Event-based gateway
    ///
    /// An event-based gateway can select a flow with an intermediate throw event, where the name and symbol must
    /// match those of the intermediate catching event. Event-based gateways require at least 2 outputs.
    pub fn event_based<F>(self, name: &str, func: F) -> (r: Self)
        where F: Fn(&T) -> IntermediateEvent + 'static + Sync + Send,
        requires
            self.spec_counts().3 < usize::MAX,
        ensures
            r.spec_diagram() == self.spec_diagram(),
            r.spec_functions() == self.spec_functions().insert((BpmnType::EventBased, name@), self.spec_counts().3),
            r.spec_counts() == (self.spec_counts().0, self.spec_counts().1, self.spec_counts().2,
                add1(self.spec_counts().3), self.spec_counts().4),
            r.spec_event_callbacks() == self.spec_event_callbacks(),
    {
        proof { use_type_invariant(&self); }
        let ProcessBuilder {
            diagram, mut handler, mut func_map, counts, end_callback, intermediate_throw_callback,
            intermediate_catch_callback,
        } = self;
        let index = counts.3;
        handler.push_event_based(func);
        func_map.insert(BpmnType::EventBased, owned(name), index);
        ProcessBuilder {
            diagram, handler, func_map, counts: (counts.0, counts.1, counts.2, index + 1, counts.4), end_callback: end_callback,
            intermediate_throw_callback: intermediate_throw_callback, intermediate_catch_callback: intermediate_catch_callback,
        }
    }

    /// Optionally register an end callback to act on end events with a symbol. If an error is returned it
    /// terminates the process prematurely and has it return the specified error. Only one can be registered.
    pub fn end_event<F>(self, func: F) -> (r: Self)
        where F: Fn(&T, Option<&str>, Symbol) -> Result<(), String> + 'static + Sync + Send,
        requires
            self.spec_counts().4 < usize::MAX,
        ensures
            r.spec_diagram() == self.spec_diagram(),
            r.spec_functions() == self.spec_functions(),
            r.spec_counts() == (self.spec_counts().0, self.spec_counts().1, self.spec_counts().2,
                self.spec_counts().3, add1(self.spec_counts().4)),
            r.spec_event_callbacks() == (Some(self.spec_counts().4), self.spec_event_callbacks().1,
                self.spec_event_callbacks().2),
    {
        proof { use_type_invariant(&self); }
        let ProcessBuilder {
            diagram, mut handler, mut func_map, counts, end_callback, intermediate_throw_callback,
            intermediate_catch_callback,
        } = self;
        let index = counts.4;
        handler.push_end_or_intermediate(func);
        ProcessBuilder {
            diagram, handler, func_map, counts: (counts.0, counts.1, counts.2, counts.3, index + 1), end_callback: Some(index),
            intermediate_throw_callback: intermediate_throw_callback, intermediate_catch_callback: intermediate_catch_callback,
        }
    }

    /// Optionally register an intermediate throw callback to act on intermediate throw events with a symbol
    /// (other than a link). If an error is returned it terminates the process prematurely and has it return
    /// the specified error. Only one can be registered.
    pub fn intermediate_throw_event<F>(self, func: F) -> (r: Self)
        where F: Fn(&T, Option<&str>, Symbol) -> Result<(), String> + 'static + Sync + Send,
        requires
            self.spec_counts().4 < usize::MAX,
        ensures
            r.spec_diagram() == self.spec_diagram(),
            r.spec_functions() == self.spec_functions(),
            r.spec_counts() == (self.spec_counts().0, self.spec_counts().1, self.spec_counts().2,
                self.spec_counts().3, add1(self.spec_counts().4)),
            r.spec_event_callbacks() == (self.spec_event_callbacks().0, Some(self.spec_counts().4),
                self.spec_event_callbacks().2),
    {
        proof { use_type_invariant(&self); }
        let ProcessBuilder {
            diagram, mut handler, mut func_map, counts, end_callback, intermediate_throw_callback,
            intermediate_catch_callback,
        } = self;
        let index = counts.4;
        handler.push_end_or_intermediate(func);
        ProcessBuilder {
            diagram, handler, func_map, counts: (counts.0, counts.1, counts.2, counts.3, index + 1), end_callback: end_callback,
            intermediate_throw_callback: Some(index), intermediate_catch_callback: intermediate_catch_callback,
        }
    }

    /// Optionally register an intermediate catch callback to act on intermediate catch events with a symbol
    /// (other than a link). If an error is returned it terminates the process prematurely and has it return
    /// the specified error. Only one can be registered.
    pub fn intermediate_catch_event<F>(self, func: F) -> (r: Self)
        where F: Fn(&T, Option<&str>, Symbol) -> Result<(), String> + 'static + Sync + Send,
        requires
            self.spec_counts().4 < usize::MAX,
        ensures
            r.spec_diagram() == self.spec_diagram(),
            r.spec_functions() == self.spec_functions(),
            r.spec_counts() == (self.spec_counts().0, self.spec_counts().1, self.spec_counts().2,
                self.spec_counts().3, add1(self.spec_counts().4)),
            r.spec_event_callbacks() == (self.spec_event_callbacks().0, self.spec_event_callbacks().1,
                Some(self.spec_counts().4)),
    {
        proof { use_type_invariant(&self); }
        let ProcessBuilder {
            diagram, mut handler, mut func_map, counts, end_callback, intermediate_throw_callback,
            intermediate_catch_callback,
        } = self;
        let index = counts.4;
        handler.push_end_or_intermediate(func);
        ProcessBuilder {
            diagram, handler, func_map, counts: (counts.0, counts.1, counts.2, counts.3, index + 1), end_callback: end_callback,
            intermediate_throw_callback: intermediate_throw_callback, intermediate_catch_callback: Some(index),
        }
    }

    /// Install and check that all required functions have been registered. Return runnable process if successful.
    /// If `build` returns an error, it contains the missing functions, each once, separated by ", ".
    pub fn build(self) -> (r: Result<Process<T>, BuildError>)
        ensures
            r is Ok <==> forall|k: Seq<char>| !spec_missing_in_processes(self.spec_functions(),
                self.spec_diagram().data@, self.spec_diagram().data@.len() as int, k),
            r matches Ok(p) ==> {
                &&& p.spec_diagram().definitions == self.spec_diagram().definitions
                &&& p.spec_diagram().data@.len() == self.spec_diagram().data@.len()
                &&& forall|q: int, i: int| 0 <= q < self.spec_diagram().data@.len()
                    && 0 <= i < self.spec_diagram().data@[q].data@.len() ==>
                    #[trigger] p.spec_diagram().data@[q].data@[i]
                        == spec_after_install(self.spec_functions(), self.spec_diagram().data@[q].data@[i])
                &&& p.spec_event_callbacks() == self.spec_event_callbacks()
                &&& p.spec_counts() == spec_nat_counts(self.spec_counts())
                &&& spec_functions_registered(p.spec_diagram(), p.spec_counts())
                &&& spec_callbacks_registered(p.spec_event_callbacks(), p.spec_counts())
                &&& forall|q: int, i: int| 0 <= q < p.spec_diagram().data@.len()
                    && 0 <= i < p.spec_diagram().data@[q].data@.len() ==>
                    spec_has_function(#[trigger] p.spec_diagram().data@[q].data@[i])
            },
            r matches Err(BuildError::MissingImplementations(m)) ==> exists|missing: Seq<String>| {
                &&& m@ == spec_join(missing, ", "@)
                &&& forall|k: Seq<char>| #[trigger] spec_has_text(missing, k) <==> spec_missing_in_processes(
                    self.spec_functions(), self.spec_diagram().data@, self.spec_diagram().data@.len() as int, k)
                &&& forall|i: int, j: int| 0 <= i < j < missing.len() ==> missing[i]@ != missing[j]@
            },
    {
        proof { use_type_invariant(&self); }
        let ProcessBuilder {
            diagram,
            handler,
            func_map,
            counts,
            end_callback,
            intermediate_throw_callback,
            intermediate_catch_callback,
        } = self;
        let mut diagram = diagram;
        let ghost before = diagram;
        let missing = diagram.install_and_check(&func_map);
        if missing.len() == 0 {
            proof {
                assert forall|k: Seq<char>| !spec_missing_in_processes(func_map@, before.data@, before.data@.len() as int, k) by {
                    if spec_missing_in_processes(func_map@, before.data@, before.data@.len() as int, k) {
                        assert(spec_has_text(missing@, k));
                    }
                }
                crate::diagram::lemma_install_keeps_wf(before, diagram, func_map@);
                assert forall|q: int, i: int| 0 <= q < diagram.data@.len() && 0 <= i < diagram.data@[q].data@.len()
                    implies spec_has_function(#[trigger] diagram.data@[q].data@[i]) by {
                    let b = before.data@[q].data@[i];
                    assert(diagram.data@[q].data@[i] == spec_after_install(func_map@, b));
                    if crate::diagram::spec_missing(func_map@, b) {
                        let k = (crate::diagram::spec_requirement(b)->0).1;
                        assert(crate::diagram::spec_missing_in(func_map@, before.data@[q].data@, k));
                        assert(spec_missing_in_processes(func_map@, before.data@, before.data@.len() as int, k));
                    }
                    crate::diagram::lemma_install_complete(func_map@, b);
                }
                assert forall|q: int, i: int| 0 <= q < diagram.data@.len() && 0 <= i < diagram.data@[q].data@.len()
                    implies spec_function_registered(#[trigger] diagram.data@[q].data@[i], handler.spec_counts()) by {
                    let b = before.data@[q].data@[i];
                    assert(diagram.data@[q].data@[i] == spec_after_install(func_map@, b));
                    if crate::diagram::spec_missing(func_map@, b) {
                        let k = (crate::diagram::spec_requirement(b)->0).1;
                        assert(crate::diagram::spec_missing_in(func_map@, before.data@[q].data@, k));
                        assert(spec_missing_in_processes(func_map@, before.data@, before.data@.len() as int, k));
                    }
                    crate::diagram::lemma_install_registered(func_map@, handler.spec_counts(), b);
                }
            }
            Ok(Process {
                diagram,
                handler,
                end_callback,
                intermediate_throw_callback,
                intermediate_catch_callback,
            })
        } else {
            proof {
                let k = missing@[0]@;
                assert(spec_has_text(missing@, k));
            }
            Err(BuildError::MissingImplementations(join_with(&missing, ", ")))
        }
    }
}

/// The counts as natural numbers.
pub open spec fn spec_nat_counts(c: (usize, usize, usize, usize, usize)) -> (nat, nat, nat, nat, nat) {
    (c.0 as nat, c.1 as nat, c.2 as nat, c.3 as nat, c.4 as nat)
}

/// Every registered end or intermediate callback names a registered event function.
pub open spec fn spec_callbacks_registered(cbs: (Option<usize>, Option<usize>, Option<usize>),
    c: (nat, nat, nat, nat, nat)) -> bool
{
    &&& cbs.0 matches Some(i) ==> i < c.4
    &&& cbs.1 matches Some(i) ==> i < c.4
    &&& cbs.2 matches Some(i) ==> i < c.4
}

/// The count after one more registration.
pub open spec fn add1(n: usize) -> usize {
    (n + 1) as usize
}

impl<T> std::str::FromStr for ProcessBuilder<T> {
    type Err = ParseError;

    /// Create new process builder and initialize it from a BPMN `&str`.
    fn from_str(s: &str) -> (r: Result<Self, Self::Err>)
        ensures
            r matches Ok(b) ==> b.spec_diagram().wf() && b.spec_functions() == Map::<(BpmnType, Seq<char>), usize>::empty()
                && b.spec_counts() == (0usize, 0usize, 0usize, 0usize, 0usize)
                && b.spec_event_callbacks() == (None::<usize>, None::<usize>, None::<usize>),
            r matches Ok(b) ==> exists|ts: Seq<XmlToken>, bs: Seq<DataBuilder>|
                #[trigger] spec_parse_run(ts, bs, Ok::<Diagram, ParseError>(b.spec_diagram())),
            r is Err && !(r->Err_0.source is Xml || r->Err_0.source is Encoding) ==>
                exists|ts: Seq<XmlToken>, bs: Seq<DataBuilder>|
                    #[trigger] spec_parse_run(ts, bs, Err::<Diagram, ParseError>(r->Err_0)),
    {
        ProcessBuilder::parse(s)
    }
}

/// Runnable process created by `ProcessBuilder::build()`
#[verifier::reject_recursive_types(T)]
pub struct Process<T> {
    pub(crate) diagram: Diagram,
    pub(crate) handler: Handler<T>,
    pub(crate) end_callback: Option<usize>,
    pub(crate) intermediate_throw_callback: Option<usize>,
    pub(crate) intermediate_catch_callback: Option<usize>,
}

impl<T> Process<T> {
    #[verifier::type_invariant]
    pub(crate) open spec fn process_inv(&self) -> bool {
        &&& self.diagram.wf()
        &&& spec_functions_registered(self.diagram, self.handler.spec_counts())
        &&& spec_callbacks_registered((self.end_callback, self.intermediate_throw_callback,
            self.intermediate_catch_callback), self.handler.spec_counts())
    }

    /// How many functions of each kind the process holds.
    pub closed spec fn spec_counts(&self) -> (nat, nat, nat, nat, nat) {
        self.handler.spec_counts()
    }

    /// The diagram with every registered function installed.
    pub closed spec fn spec_diagram(&self) -> Diagram {
        self.diagram
    }

    /// Generate code from all the tasks and gateways of the diagram.
    pub fn scaffold(&self) -> (r: String)
        ensures
            r@ == spec_scaffold(self.spec_diagram()),
    {
        self.diagram.scaffold()
    }

    pub(crate) proof fn lemma_spec_diagram(&self)
        ensures
            self.spec_diagram() == self.diagram,
            self.spec_event_callbacks() == (self.end_callback, self.intermediate_throw_callback,
                self.intermediate_catch_callback),
            self.spec_counts() == self.handler.spec_counts(),
    {
    }

    /// The registered end, intermediate throw and intermediate catch functions.
    pub closed spec fn spec_event_callbacks(&self) -> (Option<usize>, Option<usize>, Option<usize>) {
        (self.end_callback, self.intermediate_throw_callback, self.intermediate_catch_callback)
    }
}

} // verus!

//! The user functions registered with a process, by index of registration.
//!
//! The functions are boxed closures of the user's choosing. Verus cannot hold
//! such a value (a trait object with `Sync + Send`), so the store is a trusted
//! struct whose contents Verus does not see. `Handler` models it by the number
//! of functions of each kind. Nothing is stated of what a user's function
//! returns; each answer is recorded, in order, in a ghost log (`Answers`)
//! that only the calls here extend.
use vstd::prelude::*;
use crate::api::{Exclusive, Inclusive, IntermediateEvent, Task};
use crate::bpmn::Symbol;
use crate::error::RuntimeError;
use crate::text::{join2, decimal};

verus! {

/// What a registered function answered.
pub enum Answer {
    Task(Task),
    Exclusive(Exclusive),
    Inclusive(Inclusive),
    EventBased(IntermediateEvent),
    Event(Result<(), String>),
}

/// The answers of the registered functions, in the order they were given.
/// Only the calls below add to it.
pub(crate) struct Answers {
    log: Ghost<Seq<Answer>>,
}

impl Answers {
    /// The answers so far.
    pub(crate) closed spec fn spec_log(&self) -> Seq<Answer> {
        self.log@
    }

    /// No answer yet.
    pub(crate) fn new() -> (r: Answers)
        ensures
            r.spec_log() == Seq::<Answer>::empty(),
    {
        Answers { log: Ghost(Seq::empty()) }
    }
}

/// What an end or intermediate event function's answer makes of the run: it
/// goes on, or stops as a panic with the function's message.
pub open spec fn spec_event_answer(x: Result<(), String>, r: Result<(), RuntimeError>) -> bool {
    match x {
        Ok(()) => r is Ok,
        Err(m) => r == Err::<(), RuntimeError>(RuntimeError::Panic(m)),
    }
}

/// The boxed functions, one list per kind, each in the order of registration.
/// Verus does not see inside; `Handler` keeps the model of it.
#[verifier::external_body]
#[verifier::reject_recursive_types(T)]
struct Functions<T> {
    tasks: Vec<Box<dyn Fn(&T) -> Task + Sync + Send>>,
    exclusives: Vec<Box<dyn Fn(&T) -> Exclusive + Sync + Send>>,
    inclusives: Vec<Box<dyn Fn(&T) -> Inclusive + Sync + Send>>,
    event_based: Vec<Box<dyn Fn(&T) -> IntermediateEvent + Sync + Send>>,
    events: Vec<Box<dyn Fn(&T, Option<&str>, Symbol) -> Result<(), String> + Sync + Send>>,
}

/// `Vec::new` five times: no function stored.
#[verifier::external_body]
fn no_functions<T>() -> Functions<T> {
    Functions { tasks: Vec::new(), exclusives: Vec::new(), inclusives: Vec::new(), event_based: Vec::new(), events: Vec::new() }
}

/// The registered functions, with the number of functions of each kind:
/// tasks, exclusive, inclusive and event-based gateways, end and intermediate
/// events. The number of a kind is the length of that kind's list.
#[verifier::reject_recursive_types(T)]
pub(crate) struct Handler<T> {
    functions: Functions<T>,
    counts: Ghost<(nat, nat, nat, nat, nat)>,
}

impl<T> Handler<T> {
    /// How many functions of each kind are registered.
    pub(crate) closed spec fn spec_counts(&self) -> (nat, nat, nat, nat, nat) {
        self.counts@
    }

    /// No function registered.
    pub(crate) fn new() -> (r: Handler<T>)
        ensures
            r.spec_counts() == (0nat, 0nat, 0nat, 0nat, 0nat),
    {
        Handler { functions: no_functions(), counts: Ghost((0nat, 0nat, 0nat, 0nat, 0nat)) }
    }

    /// `Vec::push` of a task function: one more task function, at the next index.
    #[verifier::external_body]
    pub(crate) fn push_task<F>(&mut self, func: F)
        where F: Fn(&T) -> Task + 'static + Sync + Send,
        ensures
            final(self).spec_counts() == (old(self).spec_counts().0 + 1, old(self).spec_counts().1,
                old(self).spec_counts().2, old(self).spec_counts().3, old(self).spec_counts().4),
    {
        self.functions.tasks.push(Box::new(func));
    }

    /// `Vec::push` of an exclusive gateway function.
    #[verifier::external_body]
    pub(crate) fn push_exclusive<F>(&mut self, func: F)
        where F: Fn(&T) -> Exclusive + 'static + Sync + Send,
        ensures
            final(self).spec_counts() == (old(self).spec_counts().0, old(self).spec_counts().1 + 1,
                old(self).spec_counts().2, old(self).spec_counts().3, old(self).spec_counts().4),
    {
        self.functions.exclusives.push(Box::new(func));
    }

    /// `Vec::push` of an inclusive gateway function.
    #[verifier::external_body]
    pub(crate) fn push_inclusive<F>(&mut self, func: F)
        where F: Fn(&T) -> Inclusive + 'static + Sync + Send,
        ensures
            final(self).spec_counts() == (old(self).spec_counts().0, old(self).spec_counts().1,
                old(self).spec_counts().2 + 1, old(self).spec_counts().3, old(self).spec_counts().4),
    {
        self.functions.inclusives.push(Box::new(func));
    }

    /// `Vec::push` of an event-based gateway function.
    #[verifier::external_body]
    pub(crate) fn push_event_based<F>(&mut self, func: F)
        where F: Fn(&T) -> IntermediateEvent + 'static + Sync + Send,
        ensures
            final(self).spec_counts() == (old(self).spec_counts().0, old(self).spec_counts().1,
                old(self).spec_counts().2, old(self).spec_counts().3 + 1, old(self).spec_counts().4),
    {
        self.functions.event_based.push(Box::new(func));
    }

    /// `Vec::push` of an end or intermediate event function.
    #[verifier::external_body]
    pub(crate) fn push_end_or_intermediate<F>(&mut self, func: F)
        where F: Fn(&T, Option<&str>, Symbol) -> Result<(), String> + 'static + Sync + Send,
        ensures
            final(self).spec_counts() == (old(self).spec_counts().0, old(self).spec_counts().1,
                old(self).spec_counts().2, old(self).spec_counts().3, old(self).spec_counts().4 + 1),
    {
        self.functions.events.push(Box::new(func));
    }

    /// `Vec::get` and a call of the task function at `index`: there is one
    /// exactly below the number of task functions. Nothing is stated of what
    /// the user's function returns; its answer is recorded in `answers`.
    #[verifier::external_body]
    fn call_task(&self, index: usize, data: &T, answers: &mut Answers) -> (r: Option<Task>)
        ensures
            r is Some <==> index < self.spec_counts().0,
            r matches Some(v) ==> final(answers).spec_log() == old(answers).spec_log().push(Answer::Task(v)),
            r is None ==> final(answers).spec_log() == old(answers).spec_log(),
    {
        match self.functions.tasks.get(index) {
            Some(func) => Some(func(data)),
            _ => None,
        }
    }

    /// `Vec::get` and a call of the exclusive gateway function at `index`.
    /// Nothing is stated of what the user's function returns.
    #[verifier::external_body]
    fn call_exclusive(&self, index: usize, data: &T, answers: &mut Answers) -> (r: Option<Exclusive>)
        ensures
            r is Some <==> index < self.spec_counts().1,
            r matches Some(v) ==> final(answers).spec_log() == old(answers).spec_log().push(Answer::Exclusive(v)),
            r is None ==> final(answers).spec_log() == old(answers).spec_log(),
    {
        match self.functions.exclusives.get(index) {
            Some(func) => Some(func(data)),
            _ => None,
        }
    }

    /// `Vec::get` and a call of the inclusive gateway function at `index`.
    /// Nothing is stated of what the user's function returns.
    #[verifier::external_body]
    fn call_inclusive(&self, index: usize, data: &T, answers: &mut Answers) -> (r: Option<Inclusive>)
        ensures
            r is Some <==> index < self.spec_counts().2,
            r matches Some(v) ==> final(answers).spec_log() == old(answers).spec_log().push(Answer::Inclusive(v)),
            r is None ==> final(answers).spec_log() == old(answers).spec_log(),
    {
        match self.functions.inclusives.get(index) {
            Some(func) => Some(func(data)),
            _ => None,
        }
    }

    /// `Vec::get` and a call of the event-based gateway function at `index`.
    /// Nothing is stated of what the user's function returns.
    #[verifier::external_body]
    fn call_event_based(&self, index: usize, data: &T, answers: &mut Answers) -> (r: Option<IntermediateEvent>)
        ensures
            r is Some <==> index < self.spec_counts().3,
            r matches Some(v) ==> final(answers).spec_log() == old(answers).spec_log().push(Answer::EventBased(v)),
            r is None ==> final(answers).spec_log() == old(answers).spec_log(),
    {
        match self.functions.event_based.get(index) {
            Some(func) => Some(func(data)),
            _ => None,
        }
    }

    /// `Vec::get` and a call of the end or intermediate event function at
    /// `index`. Nothing is stated of what the user's function returns.
    #[verifier::external_body]
    fn call_end_or_intermediate(&self, index: usize, data: &T, name: Option<&str>, symbol: Symbol,
        answers: &mut Answers) -> (r: Option<Result<(), String>>)
        ensures
            r is Some <==> index < self.spec_counts().4,
            r matches Some(v) ==> final(answers).spec_log() == old(answers).spec_log().push(Answer::Event(v)),
            r is None ==> final(answers).spec_log() == old(answers).spec_log(),
    {
        match self.functions.events.get(index) {
            Some(func) => Some(func(data, name, symbol)),
            _ => None,
        }
    }

    /// Runs the task function at `index`.
    pub(crate) fn run_task(&self, index: usize, data: &T, answers: &mut Answers) -> (r: Result<Task, RuntimeError>)
        ensures
            index < self.spec_counts().0 ==> (r matches Ok(v)
                && final(answers).spec_log() == old(answers).spec_log().push(Answer::Task(v))),
            index >= self.spec_counts().0 ==> final(answers).spec_log() == old(answers).spec_log(),
            index >= self.spec_counts().0 ==> (r matches Err(e) && e matches RuntimeError::Engine(m)
                && m@ == "missing run_task with index: "@ + crate::text::spec_decimal(index as nat)),
    {
        match self.call_task(index, data, answers) {
            Some(v) => Ok(v),
            None => Err(RuntimeError::Engine(join2("missing run_task with index: ", decimal(index).as_str()))),
        }
    }

    /// Runs the exclusive gateway function at `index`.
    pub(crate) fn run_exclusive(&self, index: usize, data: &T, answers: &mut Answers) -> (r: Result<Exclusive, RuntimeError>)
        ensures
            index < self.spec_counts().1 ==> (r matches Ok(v)
                && final(answers).spec_log() == old(answers).spec_log().push(Answer::Exclusive(v))),
            index >= self.spec_counts().1 ==> final(answers).spec_log() == old(answers).spec_log(),
            index >= self.spec_counts().1 ==> (r matches Err(e) && e matches RuntimeError::Engine(m)
                && m@ == "missing run_exclusive with index: "@ + crate::text::spec_decimal(index as nat)),
    {
        match self.call_exclusive(index, data, answers) {
            Some(v) => Ok(v),
            None => Err(RuntimeError::Engine(join2("missing run_exclusive with index: ", decimal(index).as_str()))),
        }
    }

    /// Runs the inclusive gateway function at `index`.
    pub(crate) fn run_inclusive(&self, index: usize, data: &T, answers: &mut Answers) -> (r: Result<Inclusive, RuntimeError>)
        ensures
            index < self.spec_counts().2 ==> (r matches Ok(v)
                && final(answers).spec_log() == old(answers).spec_log().push(Answer::Inclusive(v))),
            index >= self.spec_counts().2 ==> final(answers).spec_log() == old(answers).spec_log(),
            index >= self.spec_counts().2 ==> (r matches Err(e) && e matches RuntimeError::Engine(m)
                && m@ == "missing run_inclusive with index: "@ + crate::text::spec_decimal(index as nat)),
    {
        match self.call_inclusive(index, data, answers) {
            Some(v) => Ok(v),
            None => Err(RuntimeError::Engine(join2("missing run_inclusive with index: ", decimal(index).as_str()))),
        }
    }

    /// Runs the event-based gateway function at `index`.
    pub(crate) fn run_eventbased(&self, index: usize, data: &T, answers: &mut Answers) -> (r: Result<IntermediateEvent, RuntimeError>)
        ensures
            index < self.spec_counts().3 ==> (r matches Ok(v)
                && final(answers).spec_log() == old(answers).spec_log().push(Answer::EventBased(v))),
            index >= self.spec_counts().3 ==> final(answers).spec_log() == old(answers).spec_log(),
            index >= self.spec_counts().3 ==> (r matches Err(e) && e matches RuntimeError::Engine(m)
                && m@ == "missing run_eventbased with index: "@ + crate::text::spec_decimal(index as nat)),
    {
        match self.call_event_based(index, data, answers) {
            Some(v) => Ok(v),
            None => Err(RuntimeError::Engine(join2("missing run_eventbased with index: ", decimal(index).as_str()))),
        }
    }

    /// Runs the end or intermediate event function at `index`. An error it
    /// returns stops the process as a panic with that message.
    pub(crate) fn run_end_or_intermediate(&self, index: usize, data: &T, name: Option<&str>, symbol: Symbol,
        answers: &mut Answers) -> (r: Result<(), RuntimeError>)
        ensures
            index < self.spec_counts().4 ==> {
                &&& final(answers).spec_log().len() == old(answers).spec_log().len() + 1
                &&& final(answers).spec_log().drop_last() == old(answers).spec_log()
                &&& final(answers).spec_log().last() matches Answer::Event(x) && spec_event_answer(x, r)
            },
            index >= self.spec_counts().4 ==> final(answers).spec_log() == old(answers).spec_log(),
            index >= self.spec_counts().4 ==> (r matches Err(e) && e matches RuntimeError::Engine(m)
                && m@ == "missing run_end_or_intermediate with index: "@ + crate::text::spec_decimal(index as nat)),
    {
        match self.call_end_or_intermediate(index, data, name, symbol, answers) {
            Some(Ok(())) => Ok(()),
            Some(Err(message)) => Err(RuntimeError::Panic(message)),
            None => Err(RuntimeError::Engine(join2("missing run_end_or_intermediate with index: ", decimal(index).as_str()))),
        }
    }
}

} // verus!

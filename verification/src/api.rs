//! What the user functions registered for tasks and gateways return.
use vstd::prelude::*;
use vstd::std_specs::convert::FromSpecImpl;
use crate::bpmn::Symbol;
use crate::text::owned;

verus! {

/// Inclusive gateway return type
#[derive(Default, Debug)]
pub enum Inclusive {
    /// Use default flow
    #[default]
    Default,
    /// Outgoing sequence flow by name or id
    Flow(String),
    /// Collection of outgoing sequence flow by name or id. An empty Vec selects the default sequence flow.
    Fork(Vec<String>),
    /// Terminate the process prematurely and have it return the specified error.
    /// Instead of doing this, you should ensure that the BPMN diagram is always modeled
    /// with an error path whenever possible.
    Panic(String),
}

/// Convenient factory methods
impl Inclusive {
    /// Take the outgoing sequence flow with this name or id.
    pub fn flow(value: &str) -> (r: Inclusive)
        ensures
            r matches Inclusive::Flow(s) && s@ == value@,
    {
        Inclusive::Flow(owned(value))
    }

    /// Take every outgoing sequence flow named (or with id) in the list.
    pub fn fork(values: Vec<&str>) -> (r: Inclusive)
        ensures
            r matches Inclusive::Fork(v) && v@.len() == values@.len()
                && forall|i: int| 0 <= i < values@.len() ==> (#[trigger] v@[i])@ == values@[i]@,
    {
        let mut v: Vec<String> = Vec::new();
        let mut i: usize = 0;
        while i < values.len()
            invariant
                i <= values@.len(),
                v@.len() == i,
                forall|j: int| 0 <= j < i ==> (#[trigger] v@[j])@ == values@[j]@,
            decreases values@.len() - i,
        {
            v.push(owned(values[i]));
            i = i + 1;
        }
        Inclusive::Fork(v)
    }

    /// Stop the process with this error.
    pub fn panic(value: &str) -> (r: Inclusive)
        ensures
            r matches Inclusive::Panic(s) && s@ == value@,
    {
        Inclusive::Panic(owned(value))
    }
}

impl From<String> for Inclusive {
    fn from(value: String) -> (r: Self) {
        Inclusive::Flow(value)
    }
}

impl FromSpecImpl<String> for Inclusive {
    open spec fn obeys_from_spec() -> bool {
        true
    }

    open spec fn from_spec(v: String) -> Inclusive {
        Inclusive::Flow(v)
    }
}

impl From<Vec<String>> for Inclusive {
    fn from(value: Vec<String>) -> (r: Self) {
        Inclusive::Fork(value)
    }
}

impl FromSpecImpl<Vec<String>> for Inclusive {
    open spec fn obeys_from_spec() -> bool {
        true
    }

    open spec fn from_spec(v: Vec<String>) -> Inclusive {
        Inclusive::Fork(v)
    }
}

/// Exclusive gateway return type
#[derive(Default, Debug)]
pub enum Exclusive {
    /// Use default flow
    #[default]
    Default,
    /// Outgoing sequence flow by name or id
    Flow(String),
    /// Terminate the process prematurely and have it return the specified error.
    /// Instead of doing this, you should ensure that the BPMN diagram is always modeled
    /// with an error path whenever possible.
    Panic(String),
}

/// Convenient factory methods
impl Exclusive {
    /// Take the outgoing sequence flow with this name or id.
    pub fn flow(value: &str) -> (r: Exclusive)
        ensures
            r matches Exclusive::Flow(s) && s@ == value@,
    {
        Exclusive::Flow(owned(value))
    }

    /// Stop the process with this error.
    pub fn panic(value: &str) -> (r: Exclusive)
        ensures
            r matches Exclusive::Panic(s) && s@ == value@,
    {
        Exclusive::Panic(owned(value))
    }
}

impl From<String> for Exclusive {
    fn from(value: String) -> (r: Self) {
        Exclusive::Flow(value)
    }
}

impl FromSpecImpl<String> for Exclusive {
    open spec fn obeys_from_spec() -> bool {
        true
    }

    open spec fn from_spec(v: String) -> Exclusive {
        Exclusive::Flow(v)
    }
}

/// Task return type
#[derive(Default, Debug)]
pub enum Task {
    /// Use default flow
    #[default]
    Default,
    /// Use a task boundary with optional name and a symbol
    Boundary(Option<String>, Symbol),
    /// Terminate the process prematurely and have it return the specified error.
    /// Instead of doing this, you should ensure that the BPMN diagram is always modeled
    /// with an error path whenever possible.
    Panic(String),
}

/// Convenient factory methods
impl Task {
    /// Leave the task through its boundary event with this symbol (and name, if given).
    pub fn boundary(name: Option<&str>, symbol: Symbol) -> (r: Task)
        ensures
            r matches Task::Boundary(n, s) && s == symbol && match (n, name) {
                (Some(a), Some(b)) => a@ == b@,
                (None, None) => true,
                _ => false,
            },
    {
        match name {
            Some(value) => Task::Boundary(Some(owned(value)), symbol),
            None => Task::Boundary(None, symbol),
        }
    }

    /// Stop the process with this error.
    pub fn panic(value: &str) -> (r: Task)
        ensures
            r matches Task::Panic(s) && s@ == value@,
    {
        Task::Panic(owned(value))
    }
}

impl From<Symbol> for Task {
    fn from(symbol: Symbol) -> (r: Self) {
        Task::Boundary(None, symbol)
    }
}

impl FromSpecImpl<Symbol> for Task {
    open spec fn obeys_from_spec() -> bool {
        true
    }

    open spec fn from_spec(v: Symbol) -> Task {
        Task::Boundary(None, v)
    }
}

impl From<(String, Symbol)> for Task {
    fn from(value: (String, Symbol)) -> (r: Self) {
        Task::Boundary(Some(value.0), value.1)
    }
}

impl FromSpecImpl<(String, Symbol)> for Task {
    open spec fn obeys_from_spec() -> bool {
        true
    }

    open spec fn from_spec(v: (String, Symbol)) -> Task {
        Task::Boundary(Some(v.0), v.1)
    }
}

/// Event based gateway return type
#[derive(Debug)]
pub enum IntermediateEvent {
    /// Throw intermediate event to correlate to matching catch
    Throw(String, Symbol),
    /// Terminate the process prematurely and have it return the specified error.
    /// Instead of doing this, you should ensure that the BPMN diagram is always modeled
    /// with an error path whenever possible.
    Panic(String),
}

/// Convenient factory methods
impl IntermediateEvent {
    /// Throw the event with this name and symbol.
    pub fn throw(name: &str, symbol: Symbol) -> (r: IntermediateEvent)
        ensures
            r matches IntermediateEvent::Throw(n, s) && n@ == name@ && s == symbol,
    {
        IntermediateEvent::Throw(owned(name), symbol)
    }

    /// Stop the process with this error.
    pub fn panic(value: &str) -> (r: IntermediateEvent)
        ensures
            r matches IntermediateEvent::Panic(s) && s@ == value@,
    {
        IntermediateEvent::Panic(owned(value))
    }
}

impl From<(String, Symbol)> for IntermediateEvent {
    fn from(value: (String, Symbol)) -> (r: Self) {
        IntermediateEvent::Throw(value.0, value.1)
    }
}

impl FromSpecImpl<(String, Symbol)> for IntermediateEvent {
    open spec fn obeys_from_spec() -> bool {
        true
    }

    open spec fn from_spec(v: (String, Symbol)) -> IntermediateEvent {
        IntermediateEvent::Throw(v.0, v.1)
    }
}

} // verus!

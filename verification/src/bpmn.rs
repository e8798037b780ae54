//! The BPMN element types that the engine understands, and how XML element
//! and attribute names map to them.
use vstd::prelude::*;
use crate::text::{str_eq, join2, join4};

verus! {

/// BPMN event symbols.
#[derive(Clone, Copy, Debug, PartialEq, Eq, Structural, Hash)]
pub enum Symbol {
    Cancel,
    Compensation,
    Conditional,
    Error,
    Escalation,
    Link,
    Message,
    Signal,
    Terminate,
    Timer,
}

#[derive(Clone, Copy, Debug, PartialEq, Eq, Structural, Hash)]
/// Kinds of BPMN events.
pub enum EventType {
    Boundary,
    End,
    IntermediateCatch,
    IntermediateThrow,
    Start,
}

#[derive(Clone, Copy, Debug, PartialEq, Eq, Structural, Hash)]
/// Kinds of BPMN activities: tasks of every icon, and subprocesses.
pub enum ActivityType {
    SubProcess,
    Task,
    ScriptTask,
    UserTask,
    ServiceTask,
    CallActivity,
    ReceiveTask,
    SendTask,
    ManualTask,
    BusinessRuleTask,
}

#[derive(Clone, Copy, Debug, PartialEq, Eq, Structural, Hash)]
/// Kinds of BPMN gateways.
pub enum GatewayType {
    Exclusive,
    Inclusive,
    Parallel,
    EventBased,
}

/// The kinds of elements that a user function can be registered for.
#[derive(Clone, Copy, Debug, PartialEq, Eq, Structural, Hash)]
pub enum BpmnType {
    Task,
    Exclusive,
    Inclusive,
    EventBased,
}

/// The XML attributes that the reader keeps.
#[derive(Clone, Copy, Debug, PartialEq, Eq, Structural, Hash)]
pub enum Attrib {
    AttachedToRef,
    CancelActivity,
    Default,
    ExporterVersion,
    Id,
    IsExecutable,
    Name,
    SourceRef,
    TargetRef,
}

/// What an XML element name (without namespace prefix) stands for.
#[derive(Clone, Copy, Debug, PartialEq, Eq, Structural)]
pub enum ElementKind {
    Event(EventType),
    /// A task of some kind (never a subprocess).
    Activity(ActivityType),
    Gateway(GatewayType),
    SequenceFlow,
    Process,
    /// `subProcess` or `transaction`.
    SubProcess,
    Outgoing,
    Incoming,
    /// An event definition that gives its parent event a symbol.
    Definition(Symbol),
    Other,
}

/// The kind of element an XML local name stands for.
pub open spec fn spec_element_kind(name: Seq<char>) -> ElementKind {
    if name == "startEvent"@ { ElementKind::Event(EventType::Start) }
    else if name == "endEvent"@ { ElementKind::Event(EventType::End) }
    else if name == "boundaryEvent"@ { ElementKind::Event(EventType::Boundary) }
    else if name == "intermediateCatchEvent"@ { ElementKind::Event(EventType::IntermediateCatch) }
    else if name == "intermediateThrowEvent"@ { ElementKind::Event(EventType::IntermediateThrow) }
    else if name == "task"@ { ElementKind::Activity(ActivityType::Task) }
    else if name == "scriptTask"@ { ElementKind::Activity(ActivityType::ScriptTask) }
    else if name == "userTask"@ { ElementKind::Activity(ActivityType::UserTask) }
    else if name == "serviceTask"@ { ElementKind::Activity(ActivityType::ServiceTask) }
    else if name == "callActivity"@ { ElementKind::Activity(ActivityType::CallActivity) }
    else if name == "receiveTask"@ { ElementKind::Activity(ActivityType::ReceiveTask) }
    else if name == "sendTask"@ { ElementKind::Activity(ActivityType::SendTask) }
    else if name == "manualTask"@ { ElementKind::Activity(ActivityType::ManualTask) }
    else if name == "businessRuleTask"@ { ElementKind::Activity(ActivityType::BusinessRuleTask) }
    else if name == "exclusiveGateway"@ { ElementKind::Gateway(GatewayType::Exclusive) }
    else if name == "parallelGateway"@ { ElementKind::Gateway(GatewayType::Parallel) }
    else if name == "inclusiveGateway"@ { ElementKind::Gateway(GatewayType::Inclusive) }
    else if name == "eventBasedGateway"@ { ElementKind::Gateway(GatewayType::EventBased) }
    else if name == "sequenceFlow"@ { ElementKind::SequenceFlow }
    else if name == "process"@ { ElementKind::Process }
    else if name == "subProcess"@ || name == "transaction"@ { ElementKind::SubProcess }
    else if name == "outgoing"@ { ElementKind::Outgoing }
    else if name == "incoming"@ { ElementKind::Incoming }
    else if name == "cancelEventDefinition"@ { ElementKind::Definition(Symbol::Cancel) }
    else if name == "compensateEventDefinition"@ { ElementKind::Definition(Symbol::Compensation) }
    else if name == "conditionalEventDefinition"@ { ElementKind::Definition(Symbol::Conditional) }
    else if name == "errorEventDefinition"@ { ElementKind::Definition(Symbol::Error) }
    else if name == "escalationEventDefinition"@ { ElementKind::Definition(Symbol::Escalation) }
    else if name == "messageEventDefinition"@ { ElementKind::Definition(Symbol::Message) }
    else if name == "linkEventDefinition"@ { ElementKind::Definition(Symbol::Link) }
    else if name == "signalEventDefinition"@ { ElementKind::Definition(Symbol::Signal) }
    else if name == "terminateEventDefinition"@ { ElementKind::Definition(Symbol::Terminate) }
    else if name == "timerEventDefinition"@ { ElementKind::Definition(Symbol::Timer) }
    else { ElementKind::Other }
}

/// The tag of the event definition for each symbol.
pub open spec fn spec_definition_tag(s: Symbol) -> Seq<char> {
    match s {
        Symbol::Cancel => "cancelEventDefinition"@,
        Symbol::Compensation => "compensateEventDefinition"@,
        Symbol::Conditional => "conditionalEventDefinition"@,
        Symbol::Error => "errorEventDefinition"@,
        Symbol::Escalation => "escalationEventDefinition"@,
        Symbol::Link => "linkEventDefinition"@,
        Symbol::Message => "messageEventDefinition"@,
        Symbol::Signal => "signalEventDefinition"@,
        Symbol::Terminate => "terminateEventDefinition"@,
        Symbol::Timer => "timerEventDefinition"@,
    }
}

/// Each event definition is read as the symbol it names.
pub proof fn lemma_definition_tags(s: Symbol)
    ensures
        spec_element_kind(spec_definition_tag(s)) == ElementKind::Definition(s),
{
    match s {
        Symbol::Cancel => lemma_tag_cancel(),
        Symbol::Compensation => lemma_tag_compensation(),
        Symbol::Conditional => lemma_tag_conditional(),
        Symbol::Error => lemma_tag_error(),
        Symbol::Escalation => lemma_tag_escalation(),
        Symbol::Link => lemma_tag_link(),
        Symbol::Message => lemma_tag_message(),
        Symbol::Signal => lemma_tag_signal(),
        Symbol::Terminate => lemma_tag_terminate(),
        Symbol::Timer => lemma_tag_timer(),
    }
}

proof fn lemma_tag_cancel()
    ensures
        spec_element_kind("cancelEventDefinition"@) == ElementKind::Definition(Symbol::Cancel),
{
    reveal_strlit("cancelEventDefinition");
    reveal_strlit("startEvent");
    assert("cancelEventDefinition"@.len() != "startEvent"@.len());
    reveal_strlit("endEvent");
    assert("cancelEventDefinition"@.len() != "endEvent"@.len());
    reveal_strlit("boundaryEvent");
    assert("cancelEventDefinition"@.len() != "boundaryEvent"@.len());
    reveal_strlit("intermediateCatchEvent");
    assert("cancelEventDefinition"@.len() != "intermediateCatchEvent"@.len());
    reveal_strlit("intermediateThrowEvent");
    assert("cancelEventDefinition"@.len() != "intermediateThrowEvent"@.len());
    reveal_strlit("task");
    assert("cancelEventDefinition"@.len() != "task"@.len());
    reveal_strlit("scriptTask");
    assert("cancelEventDefinition"@.len() != "scriptTask"@.len());
    reveal_strlit("userTask");
    assert("cancelEventDefinition"@.len() != "userTask"@.len());
    reveal_strlit("serviceTask");
    assert("cancelEventDefinition"@.len() != "serviceTask"@.len());
    reveal_strlit("callActivity");
    assert("cancelEventDefinition"@.len() != "callActivity"@.len());
    reveal_strlit("receiveTask");
    assert("cancelEventDefinition"@.len() != "receiveTask"@.len());
    reveal_strlit("sendTask");
    assert("cancelEventDefinition"@.len() != "sendTask"@.len());
    reveal_strlit("manualTask");
    assert("cancelEventDefinition"@.len() != "manualTask"@.len());
    reveal_strlit("businessRuleTask");
    assert("cancelEventDefinition"@.len() != "businessRuleTask"@.len());
    reveal_strlit("exclusiveGateway");
    assert("cancelEventDefinition"@.len() != "exclusiveGateway"@.len());
    reveal_strlit("parallelGateway");
    assert("cancelEventDefinition"@.len() != "parallelGateway"@.len());
    reveal_strlit("inclusiveGateway");
    assert("cancelEventDefinition"@.len() != "inclusiveGateway"@.len());
    reveal_strlit("eventBasedGateway");
    assert("cancelEventDefinition"@.len() != "eventBasedGateway"@.len());
    reveal_strlit("sequenceFlow");
    assert("cancelEventDefinition"@.len() != "sequenceFlow"@.len());
    reveal_strlit("process");
    assert("cancelEventDefinition"@.len() != "process"@.len());
    reveal_strlit("subProcess");
    assert("cancelEventDefinition"@.len() != "subProcess"@.len());
    reveal_strlit("transaction");
    assert("cancelEventDefinition"@.len() != "transaction"@.len());
    reveal_strlit("outgoing");
    assert("cancelEventDefinition"@.len() != "outgoing"@.len());
    reveal_strlit("incoming");
    assert("cancelEventDefinition"@.len() != "incoming"@.len());
}

proof fn lemma_tag_compensation()
    ensures
        spec_element_kind("compensateEventDefinition"@) == ElementKind::Definition(Symbol::Compensation),
{
    reveal_strlit("compensateEventDefinition");
    reveal_strlit("startEvent");
    assert("compensateEventDefinition"@.len() != "startEvent"@.len());
    reveal_strlit("endEvent");
    assert("compensateEventDefinition"@.len() != "endEvent"@.len());
    reveal_strlit("boundaryEvent");
    assert("compensateEventDefinition"@.len() != "boundaryEvent"@.len());
    reveal_strlit("intermediateCatchEvent");
    assert("compensateEventDefinition"@.len() != "intermediateCatchEvent"@.len());
    reveal_strlit("intermediateThrowEvent");
    assert("compensateEventDefinition"@.len() != "intermediateThrowEvent"@.len());
    reveal_strlit("task");
    assert("compensateEventDefinition"@.len() != "task"@.len());
    reveal_strlit("scriptTask");
    assert("compensateEventDefinition"@.len() != "scriptTask"@.len());
    reveal_strlit("userTask");
    assert("compensateEventDefinition"@.len() != "userTask"@.len());
    reveal_strlit("serviceTask");
    assert("compensateEventDefinition"@.len() != "serviceTask"@.len());
    reveal_strlit("callActivity");
    assert("compensateEventDefinition"@.len() != "callActivity"@.len());
    reveal_strlit("receiveTask");
    assert("compensateEventDefinition"@.len() != "receiveTask"@.len());
    reveal_strlit("sendTask");
    assert("compensateEventDefinition"@.len() != "sendTask"@.len());
    reveal_strlit("manualTask");
    assert("compensateEventDefinition"@.len() != "manualTask"@.len());
    reveal_strlit("businessRuleTask");
    assert("compensateEventDefinition"@.len() != "businessRuleTask"@.len());
    reveal_strlit("exclusiveGateway");
    assert("compensateEventDefinition"@.len() != "exclusiveGateway"@.len());
    reveal_strlit("parallelGateway");
    assert("compensateEventDefinition"@.len() != "parallelGateway"@.len());
    reveal_strlit("inclusiveGateway");
    assert("compensateEventDefinition"@.len() != "inclusiveGateway"@.len());
    reveal_strlit("eventBasedGateway");
    assert("compensateEventDefinition"@.len() != "eventBasedGateway"@.len());
    reveal_strlit("sequenceFlow");
    assert("compensateEventDefinition"@.len() != "sequenceFlow"@.len());
    reveal_strlit("process");
    assert("compensateEventDefinition"@.len() != "process"@.len());
    reveal_strlit("subProcess");
    assert("compensateEventDefinition"@.len() != "subProcess"@.len());
    reveal_strlit("transaction");
    assert("compensateEventDefinition"@.len() != "transaction"@.len());
    reveal_strlit("outgoing");
    assert("compensateEventDefinition"@.len() != "outgoing"@.len());
    reveal_strlit("incoming");
    assert("compensateEventDefinition"@.len() != "incoming"@.len());
    reveal_strlit("cancelEventDefinition");
    assert("compensateEventDefinition"@.len() != "cancelEventDefinition"@.len());
}

proof fn lemma_tag_conditional()
    ensures
        spec_element_kind("conditionalEventDefinition"@) == ElementKind::Definition(Symbol::Conditional),
{
    reveal_strlit("conditionalEventDefinition");
    reveal_strlit("startEvent");
    assert("conditionalEventDefinition"@.len() != "startEvent"@.len());
    reveal_strlit("endEvent");
    assert("conditionalEventDefinition"@.len() != "endEvent"@.len());
    reveal_strlit("boundaryEvent");
    assert("conditionalEventDefinition"@.len() != "boundaryEvent"@.len());
    reveal_strlit("intermediateCatchEvent");
    assert("conditionalEventDefinition"@.len() != "intermediateCatchEvent"@.len());
    reveal_strlit("intermediateThrowEvent");
    assert("conditionalEventDefinition"@.len() != "intermediateThrowEvent"@.len());
    reveal_strlit("task");
    assert("conditionalEventDefinition"@.len() != "task"@.len());
    reveal_strlit("scriptTask");
    assert("conditionalEventDefinition"@.len() != "scriptTask"@.len());
    reveal_strlit("userTask");
    assert("conditionalEventDefinition"@.len() != "userTask"@.len());
    reveal_strlit("serviceTask");
    assert("conditionalEventDefinition"@.len() != "serviceTask"@.len());
    reveal_strlit("callActivity");
    assert("conditionalEventDefinition"@.len() != "callActivity"@.len());
    reveal_strlit("receiveTask");
    assert("conditionalEventDefinition"@.len() != "receiveTask"@.len());
    reveal_strlit("sendTask");
    assert("conditionalEventDefinition"@.len() != "sendTask"@.len());
    reveal_strlit("manualTask");
    assert("conditionalEventDefinition"@.len() != "manualTask"@.len());
    reveal_strlit("businessRuleTask");
    assert("conditionalEventDefinition"@.len() != "businessRuleTask"@.len());
    reveal_strlit("exclusiveGateway");
    assert("conditionalEventDefinition"@.len() != "exclusiveGateway"@.len());
    reveal_strlit("parallelGateway");
    assert("conditionalEventDefinition"@.len() != "parallelGateway"@.len());
    reveal_strlit("inclusiveGateway");
    assert("conditionalEventDefinition"@.len() != "inclusiveGateway"@.len());
    reveal_strlit("eventBasedGateway");
    assert("conditionalEventDefinition"@.len() != "eventBasedGateway"@.len());
    reveal_strlit("sequenceFlow");
    assert("conditionalEventDefinition"@.len() != "sequenceFlow"@.len());
    reveal_strlit("process");
    assert("conditionalEventDefinition"@.len() != "process"@.len());
    reveal_strlit("subProcess");
    assert("conditionalEventDefinition"@.len() != "subProcess"@.len());
    reveal_strlit("transaction");
    assert("conditionalEventDefinition"@.len() != "transaction"@.len());
    reveal_strlit("outgoing");
    assert("conditionalEventDefinition"@.len() != "outgoing"@.len());
    reveal_strlit("incoming");
    assert("conditionalEventDefinition"@.len() != "incoming"@.len());
    reveal_strlit("cancelEventDefinition");
    assert("conditionalEventDefinition"@.len() != "cancelEventDefinition"@.len());
    reveal_strlit("compensateEventDefinition");
    assert("conditionalEventDefinition"@.len() != "compensateEventDefinition"@.len());
}

proof fn lemma_tag_error()
    ensures
        spec_element_kind("errorEventDefinition"@) == ElementKind::Definition(Symbol::Error),
{
    reveal_strlit("errorEventDefinition");
    reveal_strlit("startEvent");
    assert("errorEventDefinition"@.len() != "startEvent"@.len());
    reveal_strlit("endEvent");
    assert("errorEventDefinition"@.len() != "endEvent"@.len());
    reveal_strlit("boundaryEvent");
    assert("errorEventDefinition"@.len() != "boundaryEvent"@.len());
    reveal_strlit("intermediateCatchEvent");
    assert("errorEventDefinition"@.len() != "intermediateCatchEvent"@.len());
    reveal_strlit("intermediateThrowEvent");
    assert("errorEventDefinition"@.len() != "intermediateThrowEvent"@.len());
    reveal_strlit("task");
    assert("errorEventDefinition"@.len() != "task"@.len());
    reveal_strlit("scriptTask");
    assert("errorEventDefinition"@.len() != "scriptTask"@.len());
    reveal_strlit("userTask");
    assert("errorEventDefinition"@.len() != "userTask"@.len());
    reveal_strlit("serviceTask");
    assert("errorEventDefinition"@.len() != "serviceTask"@.len());
    reveal_strlit("callActivity");
    assert("errorEventDefinition"@.len() != "callActivity"@.len());
    reveal_strlit("receiveTask");
    assert("errorEventDefinition"@.len() != "receiveTask"@.len());
    reveal_strlit("sendTask");
    assert("errorEventDefinition"@.len() != "sendTask"@.len());
    reveal_strlit("manualTask");
    assert("errorEventDefinition"@.len() != "manualTask"@.len());
    reveal_strlit("businessRuleTask");
    assert("errorEventDefinition"@.len() != "businessRuleTask"@.len());
    reveal_strlit("exclusiveGateway");
    assert("errorEventDefinition"@.len() != "exclusiveGateway"@.len());
    reveal_strlit("parallelGateway");
    assert("errorEventDefinition"@.len() != "parallelGateway"@.len());
    reveal_strlit("inclusiveGateway");
    assert("errorEventDefinition"@.len() != "inclusiveGateway"@.len());
    reveal_strlit("eventBasedGateway");
    assert("errorEventDefinition"@.len() != "eventBasedGateway"@.len());
    reveal_strlit("sequenceFlow");
    assert("errorEventDefinition"@.len() != "sequenceFlow"@.len());
    reveal_strlit("process");
    assert("errorEventDefinition"@.len() != "process"@.len());
    reveal_strlit("subProcess");
    assert("errorEventDefinition"@.len() != "subProcess"@.len());
    reveal_strlit("transaction");
    assert("errorEventDefinition"@.len() != "transaction"@.len());
    reveal_strlit("outgoing");
    assert("errorEventDefinition"@.len() != "outgoing"@.len());
    reveal_strlit("incoming");
    assert("errorEventDefinition"@.len() != "incoming"@.len());
    reveal_strlit("cancelEventDefinition");
    assert("errorEventDefinition"@.len() != "cancelEventDefinition"@.len());
    reveal_strlit("compensateEventDefinition");
    assert("errorEventDefinition"@.len() != "compensateEventDefinition"@.len());
    reveal_strlit("conditionalEventDefinition");
    assert("errorEventDefinition"@.len() != "conditionalEventDefinition"@.len());
}

proof fn lemma_tag_escalation()
    ensures
        spec_element_kind("escalationEventDefinition"@) == ElementKind::Definition(Symbol::Escalation),
{
    reveal_strlit("escalationEventDefinition");
    reveal_strlit("startEvent");
    assert("escalationEventDefinition"@.len() != "startEvent"@.len());
    reveal_strlit("endEvent");
    assert("escalationEventDefinition"@.len() != "endEvent"@.len());
    reveal_strlit("boundaryEvent");
    assert("escalationEventDefinition"@.len() != "boundaryEvent"@.len());
    reveal_strlit("intermediateCatchEvent");
    assert("escalationEventDefinition"@.len() != "intermediateCatchEvent"@.len());
    reveal_strlit("intermediateThrowEvent");
    assert("escalationEventDefinition"@.len() != "intermediateThrowEvent"@.len());
    reveal_strlit("task");
    assert("escalationEventDefinition"@.len() != "task"@.len());
    reveal_strlit("scriptTask");
    assert("escalationEventDefinition"@.len() != "scriptTask"@.len());
    reveal_strlit("userTask");
    assert("escalationEventDefinition"@.len() != "userTask"@.len());
    reveal_strlit("serviceTask");
    assert("escalationEventDefinition"@.len() != "serviceTask"@.len());
    reveal_strlit("callActivity");
    assert("escalationEventDefinition"@.len() != "callActivity"@.len());
    reveal_strlit("receiveTask");
    assert("escalationEventDefinition"@.len() != "receiveTask"@.len());
    reveal_strlit("sendTask");
    assert("escalationEventDefinition"@.len() != "sendTask"@.len());
    reveal_strlit("manualTask");
    assert("escalationEventDefinition"@.len() != "manualTask"@.len());
    reveal_strlit("businessRuleTask");
    assert("escalationEventDefinition"@.len() != "businessRuleTask"@.len());
    reveal_strlit("exclusiveGateway");
    assert("escalationEventDefinition"@.len() != "exclusiveGateway"@.len());
    reveal_strlit("parallelGateway");
    assert("escalationEventDefinition"@.len() != "parallelGateway"@.len());
    reveal_strlit("inclusiveGateway");
    assert("escalationEventDefinition"@.len() != "inclusiveGateway"@.len());
    reveal_strlit("eventBasedGateway");
    assert("escalationEventDefinition"@.len() != "eventBasedGateway"@.len());
    reveal_strlit("sequenceFlow");
    assert("escalationEventDefinition"@.len() != "sequenceFlow"@.len());
    reveal_strlit("process");
    assert("escalationEventDefinition"@.len() != "process"@.len());
    reveal_strlit("subProcess");
    assert("escalationEventDefinition"@.len() != "subProcess"@.len());
    reveal_strlit("transaction");
    assert("escalationEventDefinition"@.len() != "transaction"@.len());
    reveal_strlit("outgoing");
    assert("escalationEventDefinition"@.len() != "outgoing"@.len());
    reveal_strlit("incoming");
    assert("escalationEventDefinition"@.len() != "incoming"@.len());
    reveal_strlit("cancelEventDefinition");
    assert("escalationEventDefinition"@.len() != "cancelEventDefinition"@.len());
    reveal_strlit("compensateEventDefinition");
    assert("escalationEventDefinition"@[0] != "compensateEventDefinition"@[0]);
    assert("escalationEventDefinition"@ != "compensateEventDefinition"@);
    reveal_strlit("conditionalEventDefinition");
    assert("escalationEventDefinition"@.len() != "conditionalEventDefinition"@.len());
    reveal_strlit("errorEventDefinition");
    assert("escalationEventDefinition"@.len() != "errorEventDefinition"@.len());
}

proof fn lemma_tag_link()
    ensures
        spec_element_kind("linkEventDefinition"@) == ElementKind::Definition(Symbol::Link),
{
    reveal_strlit("linkEventDefinition");
    reveal_strlit("startEvent");
    assert("linkEventDefinition"@.len() != "startEvent"@.len());
    reveal_strlit("endEvent");
    assert("linkEventDefinition"@.len() != "endEvent"@.len());
    reveal_strlit("boundaryEvent");
    assert("linkEventDefinition"@.len() != "boundaryEvent"@.len());
    reveal_strlit("intermediateCatchEvent");
    assert("linkEventDefinition"@.len() != "intermediateCatchEvent"@.len());
    reveal_strlit("intermediateThrowEvent");
    assert("linkEventDefinition"@.len() != "intermediateThrowEvent"@.len());
    reveal_strlit("task");
    assert("linkEventDefinition"@.len() != "task"@.len());
    reveal_strlit("scriptTask");
    assert("linkEventDefinition"@.len() != "scriptTask"@.len());
    reveal_strlit("userTask");
    assert("linkEventDefinition"@.len() != "userTask"@.len());
    reveal_strlit("serviceTask");
    assert("linkEventDefinition"@.len() != "serviceTask"@.len());
    reveal_strlit("callActivity");
    assert("linkEventDefinition"@.len() != "callActivity"@.len());
    reveal_strlit("receiveTask");
    assert("linkEventDefinition"@.len() != "receiveTask"@.len());
    reveal_strlit("sendTask");
    assert("linkEventDefinition"@.len() != "sendTask"@.len());
    reveal_strlit("manualTask");
    assert("linkEventDefinition"@.len() != "manualTask"@.len());
    reveal_strlit("businessRuleTask");
    assert("linkEventDefinition"@.len() != "businessRuleTask"@.len());
    reveal_strlit("exclusiveGateway");
    assert("linkEventDefinition"@.len() != "exclusiveGateway"@.len());
    reveal_strlit("parallelGateway");
    assert("linkEventDefinition"@.len() != "parallelGateway"@.len());
    reveal_strlit("inclusiveGateway");
    assert("linkEventDefinition"@.len() != "inclusiveGateway"@.len());
    reveal_strlit("eventBasedGateway");
    assert("linkEventDefinition"@.len() != "eventBasedGateway"@.len());
    reveal_strlit("sequenceFlow");
    assert("linkEventDefinition"@.len() != "sequenceFlow"@.len());
    reveal_strlit("process");
    assert("linkEventDefinition"@.len() != "process"@.len());
    reveal_strlit("subProcess");
    assert("linkEventDefinition"@.len() != "subProcess"@.len());
    reveal_strlit("transaction");
    assert("linkEventDefinition"@.len() != "transaction"@.len());
    reveal_strlit("outgoing");
    assert("linkEventDefinition"@.len() != "outgoing"@.len());
    reveal_strlit("incoming");
    assert("linkEventDefinition"@.len() != "incoming"@.len());
    reveal_strlit("cancelEventDefinition");
    assert("linkEventDefinition"@.len() != "cancelEventDefinition"@.len());
    reveal_strlit("compensateEventDefinition");
    assert("linkEventDefinition"@.len() != "compensateEventDefinition"@.len());
    reveal_strlit("conditionalEventDefinition");
    assert("linkEventDefinition"@.len() != "conditionalEventDefinition"@.len());
    reveal_strlit("errorEventDefinition");
    assert("linkEventDefinition"@.len() != "errorEventDefinition"@.len());
    reveal_strlit("escalationEventDefinition");
    assert("linkEventDefinition"@.len() != "escalationEventDefinition"@.len());
    reveal_strlit("messageEventDefinition");
    assert("linkEventDefinition"@.len() != "messageEventDefinition"@.len());
}

proof fn lemma_tag_message()
    ensures
        spec_element_kind("messageEventDefinition"@) == ElementKind::Definition(Symbol::Message),
{
    reveal_strlit("messageEventDefinition");
    reveal_strlit("startEvent");
    assert("messageEventDefinition"@.len() != "startEvent"@.len());
    reveal_strlit("endEvent");
    assert("messageEventDefinition"@.len() != "endEvent"@.len());
    reveal_strlit("boundaryEvent");
    assert("messageEventDefinition"@.len() != "boundaryEvent"@.len());
    reveal_strlit("intermediateCatchEvent");
    assert("messageEventDefinition"@[0] != "intermediateCatchEvent"@[0]);
    assert("messageEventDefinition"@ != "intermediateCatchEvent"@);
    reveal_strlit("intermediateThrowEvent");
    assert("messageEventDefinition"@[0] != "intermediateThrowEvent"@[0]);
    assert("messageEventDefinition"@ != "intermediateThrowEvent"@);
    reveal_strlit("task");
    assert("messageEventDefinition"@.len() != "task"@.len());
    reveal_strlit("scriptTask");
    assert("messageEventDefinition"@.len() != "scriptTask"@.len());
    reveal_strlit("userTask");
    assert("messageEventDefinition"@.len() != "userTask"@.len());
    reveal_strlit("serviceTask");
    assert("messageEventDefinition"@.len() != "serviceTask"@.len());
    reveal_strlit("callActivity");
    assert("messageEventDefinition"@.len() != "callActivity"@.len());
    reveal_strlit("receiveTask");
    assert("messageEventDefinition"@.len() != "receiveTask"@.len());
    reveal_strlit("sendTask");
    assert("messageEventDefinition"@.len() != "sendTask"@.len());
    reveal_strlit("manualTask");
    assert("messageEventDefinition"@.len() != "manualTask"@.len());
    reveal_strlit("businessRuleTask");
    assert("messageEventDefinition"@.len() != "businessRuleTask"@.len());
    reveal_strlit("exclusiveGateway");
    assert("messageEventDefinition"@.len() != "exclusiveGateway"@.len());
    reveal_strlit("parallelGateway");
    assert("messageEventDefinition"@.len() != "parallelGateway"@.len());
    reveal_strlit("inclusiveGateway");
    assert("messageEventDefinition"@.len() != "inclusiveGateway"@.len());
    reveal_strlit("eventBasedGateway");
    assert("messageEventDefinition"@.len() != "eventBasedGateway"@.len());
    reveal_strlit("sequenceFlow");
    assert("messageEventDefinition"@.len() != "sequenceFlow"@.len());
    reveal_strlit("process");
    assert("messageEventDefinition"@.len() != "process"@.len());
    reveal_strlit("subProcess");
    assert("messageEventDefinition"@.len() != "subProcess"@.len());
    reveal_strlit("transaction");
    assert("messageEventDefinition"@.len() != "transaction"@.len());
    reveal_strlit("outgoing");
    assert("messageEventDefinition"@.len() != "outgoing"@.len());
    reveal_strlit("incoming");
    assert("messageEventDefinition"@.len() != "incoming"@.len());
    reveal_strlit("cancelEventDefinition");
    assert("messageEventDefinition"@.len() != "cancelEventDefinition"@.len());
    reveal_strlit("compensateEventDefinition");
    assert("messageEventDefinition"@.len() != "compensateEventDefinition"@.len());
    reveal_strlit("conditionalEventDefinition");
    assert("messageEventDefinition"@.len() != "conditionalEventDefinition"@.len());
    reveal_strlit("errorEventDefinition");
    assert("messageEventDefinition"@.len() != "errorEventDefinition"@.len());
    reveal_strlit("escalationEventDefinition");
    assert("messageEventDefinition"@.len() != "escalationEventDefinition"@.len());
}

proof fn lemma_tag_signal()
    ensures
        spec_element_kind("signalEventDefinition"@) == ElementKind::Definition(Symbol::Signal),
{
    reveal_strlit("signalEventDefinition");
    reveal_strlit("startEvent");
    assert("signalEventDefinition"@.len() != "startEvent"@.len());
    reveal_strlit("endEvent");
    assert("signalEventDefinition"@.len() != "endEvent"@.len());
    reveal_strlit("boundaryEvent");
    assert("signalEventDefinition"@.len() != "boundaryEvent"@.len());
    reveal_strlit("intermediateCatchEvent");
    assert("signalEventDefinition"@.len() != "intermediateCatchEvent"@.len());
    reveal_strlit("intermediateThrowEvent");
    assert("signalEventDefinition"@.len() != "intermediateThrowEvent"@.len());
    reveal_strlit("task");
    assert("signalEventDefinition"@.len() != "task"@.len());
    reveal_strlit("scriptTask");
    assert("signalEventDefinition"@.len() != "scriptTask"@.len());
    reveal_strlit("userTask");
    assert("signalEventDefinition"@.len() != "userTask"@.len());
    reveal_strlit("serviceTask");
    assert("signalEventDefinition"@.len() != "serviceTask"@.len());
    reveal_strlit("callActivity");
    assert("signalEventDefinition"@.len() != "callActivity"@.len());
    reveal_strlit("receiveTask");
    assert("signalEventDefinition"@.len() != "receiveTask"@.len());
    reveal_strlit("sendTask");
    assert("signalEventDefinition"@.len() != "sendTask"@.len());
    reveal_strlit("manualTask");
    assert("signalEventDefinition"@.len() != "manualTask"@.len());
    reveal_strlit("businessRuleTask");
    assert("signalEventDefinition"@.len() != "businessRuleTask"@.len());
    reveal_strlit("exclusiveGateway");
    assert("signalEventDefinition"@.len() != "exclusiveGateway"@.len());
    reveal_strlit("parallelGateway");
    assert("signalEventDefinition"@.len() != "parallelGateway"@.len());
    reveal_strlit("inclusiveGateway");
    assert("signalEventDefinition"@.len() != "inclusiveGateway"@.len());
    reveal_strlit("eventBasedGateway");
    assert("signalEventDefinition"@.len() != "eventBasedGateway"@.len());
    reveal_strlit("sequenceFlow");
    assert("signalEventDefinition"@.len() != "sequenceFlow"@.len());
    reveal_strlit("process");
    assert("signalEventDefinition"@.len() != "process"@.len());
    reveal_strlit("subProcess");
    assert("signalEventDefinition"@.len() != "subProcess"@.len());
    reveal_strlit("transaction");
    assert("signalEventDefinition"@.len() != "transaction"@.len());
    reveal_strlit("outgoing");
    assert("signalEventDefinition"@.len() != "outgoing"@.len());
    reveal_strlit("incoming");
    assert("signalEventDefinition"@.len() != "incoming"@.len());
    reveal_strlit("cancelEventDefinition");
    assert("signalEventDefinition"@[0] != "cancelEventDefinition"@[0]);
    assert("signalEventDefinition"@ != "cancelEventDefinition"@);
    reveal_strlit("compensateEventDefinition");
    assert("signalEventDefinition"@.len() != "compensateEventDefinition"@.len());
    reveal_strlit("conditionalEventDefinition");
    assert("signalEventDefinition"@.len() != "conditionalEventDefinition"@.len());
    reveal_strlit("errorEventDefinition");
    assert("signalEventDefinition"@.len() != "errorEventDefinition"@.len());
    reveal_strlit("escalationEventDefinition");
    assert("signalEventDefinition"@.len() != "escalationEventDefinition"@.len());
    reveal_strlit("messageEventDefinition");
    assert("signalEventDefinition"@.len() != "messageEventDefinition"@.len());
    reveal_strlit("linkEventDefinition");
    assert("signalEventDefinition"@.len() != "linkEventDefinition"@.len());
}

proof fn lemma_tag_terminate()
    ensures
        spec_element_kind("terminateEventDefinition"@) == ElementKind::Definition(Symbol::Terminate),
{
    reveal_strlit("terminateEventDefinition");
    reveal_strlit("startEvent");
    assert("terminateEventDefinition"@.len() != "startEvent"@.len());
    reveal_strlit("endEvent");
    assert("terminateEventDefinition"@.len() != "endEvent"@.len());
    reveal_strlit("boundaryEvent");
    assert("terminateEventDefinition"@.len() != "boundaryEvent"@.len());
    reveal_strlit("intermediateCatchEvent");
    assert("terminateEventDefinition"@.len() != "intermediateCatchEvent"@.len());
    reveal_strlit("intermediateThrowEvent");
    assert("terminateEventDefinition"@.len() != "intermediateThrowEvent"@.len());
    reveal_strlit("task");
    assert("terminateEventDefinition"@.len() != "task"@.len());
    reveal_strlit("scriptTask");
    assert("terminateEventDefinition"@.len() != "scriptTask"@.len());
    reveal_strlit("userTask");
    assert("terminateEventDefinition"@.len() != "userTask"@.len());
    reveal_strlit("serviceTask");
    assert("terminateEventDefinition"@.len() != "serviceTask"@.len());
    reveal_strlit("callActivity");
    assert("terminateEventDefinition"@.len() != "callActivity"@.len());
    reveal_strlit("receiveTask");
    assert("terminateEventDefinition"@.len() != "receiveTask"@.len());
    reveal_strlit("sendTask");
    assert("terminateEventDefinition"@.len() != "sendTask"@.len());
    reveal_strlit("manualTask");
    assert("terminateEventDefinition"@.len() != "manualTask"@.len());
    reveal_strlit("businessRuleTask");
    assert("terminateEventDefinition"@.len() != "businessRuleTask"@.len());
    reveal_strlit("exclusiveGateway");
    assert("terminateEventDefinition"@.len() != "exclusiveGateway"@.len());
    reveal_strlit("parallelGateway");
    assert("terminateEventDefinition"@.len() != "parallelGateway"@.len());
    reveal_strlit("inclusiveGateway");
    assert("terminateEventDefinition"@.len() != "inclusiveGateway"@.len());
    reveal_strlit("eventBasedGateway");
    assert("terminateEventDefinition"@.len() != "eventBasedGateway"@.len());
    reveal_strlit("sequenceFlow");
    assert("terminateEventDefinition"@.len() != "sequenceFlow"@.len());
    reveal_strlit("process");
    assert("terminateEventDefinition"@.len() != "process"@.len());
    reveal_strlit("subProcess");
    assert("terminateEventDefinition"@.len() != "subProcess"@.len());
    reveal_strlit("transaction");
    assert("terminateEventDefinition"@.len() != "transaction"@.len());
    reveal_strlit("outgoing");
    assert("terminateEventDefinition"@.len() != "outgoing"@.len());
    reveal_strlit("incoming");
    assert("terminateEventDefinition"@.len() != "incoming"@.len());
    reveal_strlit("cancelEventDefinition");
    assert("terminateEventDefinition"@.len() != "cancelEventDefinition"@.len());
    reveal_strlit("compensateEventDefinition");
    assert("terminateEventDefinition"@.len() != "compensateEventDefinition"@.len());
    reveal_strlit("conditionalEventDefinition");
    assert("terminateEventDefinition"@.len() != "conditionalEventDefinition"@.len());
    reveal_strlit("errorEventDefinition");
    assert("terminateEventDefinition"@.len() != "errorEventDefinition"@.len());
    reveal_strlit("escalationEventDefinition");
    assert("terminateEventDefinition"@.len() != "escalationEventDefinition"@.len());
    reveal_strlit("messageEventDefinition");
    assert("terminateEventDefinition"@.len() != "messageEventDefinition"@.len());
    reveal_strlit("linkEventDefinition");
    assert("terminateEventDefinition"@.len() != "linkEventDefinition"@.len());
    reveal_strlit("signalEventDefinition");
    assert("terminateEventDefinition"@.len() != "signalEventDefinition"@.len());
}

proof fn lemma_tag_timer()
    ensures
        spec_element_kind("timerEventDefinition"@) == ElementKind::Definition(Symbol::Timer),
{
    reveal_strlit("timerEventDefinition");
    reveal_strlit("startEvent");
    assert("timerEventDefinition"@.len() != "startEvent"@.len());
    reveal_strlit("endEvent");
    assert("timerEventDefinition"@.len() != "endEvent"@.len());
    reveal_strlit("boundaryEvent");
    assert("timerEventDefinition"@.len() != "boundaryEvent"@.len());
    reveal_strlit("intermediateCatchEvent");
    assert("timerEventDefinition"@.len() != "intermediateCatchEvent"@.len());
    reveal_strlit("intermediateThrowEvent");
    assert("timerEventDefinition"@.len() != "intermediateThrowEvent"@.len());
    reveal_strlit("task");
    assert("timerEventDefinition"@.len() != "task"@.len());
    reveal_strlit("scriptTask");
    assert("timerEventDefinition"@.len() != "scriptTask"@.len());
    reveal_strlit("userTask");
    assert("timerEventDefinition"@.len() != "userTask"@.len());
    reveal_strlit("serviceTask");
    assert("timerEventDefinition"@.len() != "serviceTask"@.len());
    reveal_strlit("callActivity");
    assert("timerEventDefinition"@.len() != "callActivity"@.len());
    reveal_strlit("receiveTask");
    assert("timerEventDefinition"@.len() != "receiveTask"@.len());
    reveal_strlit("sendTask");
    assert("timerEventDefinition"@.len() != "sendTask"@.len());
    reveal_strlit("manualTask");
    assert("timerEventDefinition"@.len() != "manualTask"@.len());
    reveal_strlit("businessRuleTask");
    assert("timerEventDefinition"@.len() != "businessRuleTask"@.len());
    reveal_strlit("exclusiveGateway");
    assert("timerEventDefinition"@.len() != "exclusiveGateway"@.len());
    reveal_strlit("parallelGateway");
    assert("timerEventDefinition"@.len() != "parallelGateway"@.len());
    reveal_strlit("inclusiveGateway");
    assert("timerEventDefinition"@.len() != "inclusiveGateway"@.len());
    reveal_strlit("eventBasedGateway");
    assert("timerEventDefinition"@.len() != "eventBasedGateway"@.len());
    reveal_strlit("sequenceFlow");
    assert("timerEventDefinition"@.len() != "sequenceFlow"@.len());
    reveal_strlit("process");
    assert("timerEventDefinition"@.len() != "process"@.len());
    reveal_strlit("subProcess");
    assert("timerEventDefinition"@.len() != "subProcess"@.len());
    reveal_strlit("transaction");
    assert("timerEventDefinition"@.len() != "transaction"@.len());
    reveal_strlit("outgoing");
    assert("timerEventDefinition"@.len() != "outgoing"@.len());
    reveal_strlit("incoming");
    assert("timerEventDefinition"@.len() != "incoming"@.len());
    reveal_strlit("cancelEventDefinition");
    assert("timerEventDefinition"@.len() != "cancelEventDefinition"@.len());
    reveal_strlit("compensateEventDefinition");
    assert("timerEventDefinition"@.len() != "compensateEventDefinition"@.len());
    reveal_strlit("conditionalEventDefinition");
    assert("timerEventDefinition"@.len() != "conditionalEventDefinition"@.len());
    reveal_strlit("errorEventDefinition");
    assert("timerEventDefinition"@[0] != "errorEventDefinition"@[0]);
    assert("timerEventDefinition"@ != "errorEventDefinition"@);
    reveal_strlit("escalationEventDefinition");
    assert("timerEventDefinition"@.len() != "escalationEventDefinition"@.len());
    reveal_strlit("messageEventDefinition");
    assert("timerEventDefinition"@.len() != "messageEventDefinition"@.len());
    reveal_strlit("linkEventDefinition");
    assert("timerEventDefinition"@.len() != "linkEventDefinition"@.len());
    reveal_strlit("signalEventDefinition");
    assert("timerEventDefinition"@.len() != "signalEventDefinition"@.len());
    reveal_strlit("terminateEventDefinition");
    assert("timerEventDefinition"@.len() != "terminateEventDefinition"@.len());
}

/// Classifies an element's local name.
pub fn element_kind(name: &str) -> (k: ElementKind)
    ensures
        k == spec_element_kind(name@),
{
    if str_eq(name, "startEvent") { ElementKind::Event(EventType::Start) }
    else if str_eq(name, "endEvent") { ElementKind::Event(EventType::End) }
    else if str_eq(name, "boundaryEvent") { ElementKind::Event(EventType::Boundary) }
    else if str_eq(name, "intermediateCatchEvent") { ElementKind::Event(EventType::IntermediateCatch) }
    else if str_eq(name, "intermediateThrowEvent") { ElementKind::Event(EventType::IntermediateThrow) }
    else if str_eq(name, "task") { ElementKind::Activity(ActivityType::Task) }
    else if str_eq(name, "scriptTask") { ElementKind::Activity(ActivityType::ScriptTask) }
    else if str_eq(name, "userTask") { ElementKind::Activity(ActivityType::UserTask) }
    else if str_eq(name, "serviceTask") { ElementKind::Activity(ActivityType::ServiceTask) }
    else if str_eq(name, "callActivity") { ElementKind::Activity(ActivityType::CallActivity) }
    else if str_eq(name, "receiveTask") { ElementKind::Activity(ActivityType::ReceiveTask) }
    else if str_eq(name, "sendTask") { ElementKind::Activity(ActivityType::SendTask) }
    else if str_eq(name, "manualTask") { ElementKind::Activity(ActivityType::ManualTask) }
    else if str_eq(name, "businessRuleTask") { ElementKind::Activity(ActivityType::BusinessRuleTask) }
    else if str_eq(name, "exclusiveGateway") { ElementKind::Gateway(GatewayType::Exclusive) }
    else if str_eq(name, "parallelGateway") { ElementKind::Gateway(GatewayType::Parallel) }
    else if str_eq(name, "inclusiveGateway") { ElementKind::Gateway(GatewayType::Inclusive) }
    else if str_eq(name, "eventBasedGateway") { ElementKind::Gateway(GatewayType::EventBased) }
    else if str_eq(name, "sequenceFlow") { ElementKind::SequenceFlow }
    else if str_eq(name, "process") { ElementKind::Process }
    else if str_eq(name, "subProcess") || str_eq(name, "transaction") { ElementKind::SubProcess }
    else if str_eq(name, "outgoing") { ElementKind::Outgoing }
    else if str_eq(name, "incoming") { ElementKind::Incoming }
    else if str_eq(name, "cancelEventDefinition") { ElementKind::Definition(Symbol::Cancel) }
    else if str_eq(name, "compensateEventDefinition") { ElementKind::Definition(Symbol::Compensation) }
    else if str_eq(name, "conditionalEventDefinition") { ElementKind::Definition(Symbol::Conditional) }
    else if str_eq(name, "errorEventDefinition") { ElementKind::Definition(Symbol::Error) }
    else if str_eq(name, "escalationEventDefinition") { ElementKind::Definition(Symbol::Escalation) }
    else if str_eq(name, "messageEventDefinition") { ElementKind::Definition(Symbol::Message) }
    else if str_eq(name, "linkEventDefinition") { ElementKind::Definition(Symbol::Link) }
    else if str_eq(name, "signalEventDefinition") { ElementKind::Definition(Symbol::Signal) }
    else if str_eq(name, "terminateEventDefinition") { ElementKind::Definition(Symbol::Terminate) }
    else if str_eq(name, "timerEventDefinition") { ElementKind::Definition(Symbol::Timer) }
    else { ElementKind::Other }
}

/// The attribute an XML attribute name stands for, if the reader keeps it.
pub open spec fn spec_attrib(name: Seq<char>) -> Option<Attrib> {
    if name == "attachedToRef"@ { Some(Attrib::AttachedToRef) }
    else if name == "cancelActivity"@ { Some(Attrib::CancelActivity) }
    else if name == "default"@ { Some(Attrib::Default) }
    else if name == "exporterVersion"@ { Some(Attrib::ExporterVersion) }
    else if name == "id"@ { Some(Attrib::Id) }
    else if name == "isExecutable"@ { Some(Attrib::IsExecutable) }
    else if name == "name"@ { Some(Attrib::Name) }
    else if name == "sourceRef"@ { Some(Attrib::SourceRef) }
    else if name == "targetRef"@ { Some(Attrib::TargetRef) }
    else { None }
}

/// Maps an attribute's local name to the attribute it stands for, if the reader keeps it.
pub fn parse_attrib(name: &str) -> (r: Option<Attrib>)
    ensures
        r == spec_attrib(name@),
{
    if str_eq(name, "attachedToRef") { Some(Attrib::AttachedToRef) }
    else if str_eq(name, "cancelActivity") { Some(Attrib::CancelActivity) }
    else if str_eq(name, "default") { Some(Attrib::Default) }
    else if str_eq(name, "exporterVersion") { Some(Attrib::ExporterVersion) }
    else if str_eq(name, "id") { Some(Attrib::Id) }
    else if str_eq(name, "isExecutable") { Some(Attrib::IsExecutable) }
    else if str_eq(name, "name") { Some(Attrib::Name) }
    else if str_eq(name, "sourceRef") { Some(Attrib::SourceRef) }
    else if str_eq(name, "targetRef") { Some(Attrib::TargetRef) }
    else { None }
}

/// Maps an event definition's local name to its symbol.
pub fn parse_symbol(name: &str) -> (r: Option<Symbol>)
    ensures
        r == (match spec_element_kind(name@) {
            ElementKind::Definition(s) => Some(s),
            _ => None::<Symbol>,
        }),
{
    match element_kind(name) {
        ElementKind::Definition(s) => Some(s),
        _ => None,
    }
}

/// How a symbol is shown.
pub open spec fn spec_symbol_name(s: Symbol) -> Seq<char> {
    match s {
        Symbol::Cancel => "Cancel"@,
        Symbol::Compensation => "Compensation"@,
        Symbol::Conditional => "Conditional"@,
        Symbol::Error => "Error"@,
        Symbol::Escalation => "Escalation"@,
        Symbol::Link => "Link"@,
        Symbol::Message => "Message"@,
        Symbol::Signal => "Signal"@,
        Symbol::Terminate => "Terminate"@,
        Symbol::Timer => "Timer"@,
    }
}

impl Symbol {
    /// The symbol's name, as it is displayed.
    pub fn name(&self) -> (r: &'static str)
        ensures
            r@ == spec_symbol_name(*self),
    {
        match self {
            Symbol::Cancel => "Cancel",
            Symbol::Compensation => "Compensation",
            Symbol::Conditional => "Conditional",
            Symbol::Error => "Error",
            Symbol::Escalation => "Escalation",
            Symbol::Link => "Link",
            Symbol::Message => "Message",
            Symbol::Signal => "Signal",
            Symbol::Terminate => "Terminate",
            Symbol::Timer => "Timer",
        }
    }
}

/// How an event type is shown.
pub open spec fn spec_event_type_name(t: EventType) -> Seq<char> {
    match t {
        EventType::Boundary => "Boundary"@,
        EventType::End => "End"@,
        EventType::IntermediateCatch => "IntermediateCatch"@,
        EventType::IntermediateThrow => "IntermediateThrow"@,
        EventType::Start => "Start"@,
    }
}

impl EventType {
    pub fn name(&self) -> (r: &'static str)
        ensures
            r@ == spec_event_type_name(*self),
    {
        match self {
            EventType::Boundary => "Boundary",
            EventType::End => "End",
            EventType::IntermediateCatch => "IntermediateCatch",
            EventType::IntermediateThrow => "IntermediateThrow",
            EventType::Start => "Start",
        }
    }
}

/// How an activity type is shown.
pub open spec fn spec_activity_type_name(t: ActivityType) -> Seq<char> {
    match t {
        ActivityType::SubProcess => "SubProcess"@,
        ActivityType::Task => "Task"@,
        ActivityType::ScriptTask => "ScriptTask"@,
        ActivityType::UserTask => "UserTask"@,
        ActivityType::ServiceTask => "ServiceTask"@,
        ActivityType::CallActivity => "CallActivity"@,
        ActivityType::ReceiveTask => "ReceiveTask"@,
        ActivityType::SendTask => "SendTask"@,
        ActivityType::ManualTask => "ManualTask"@,
        ActivityType::BusinessRuleTask => "BusinessRuleTask"@,
    }
}

impl ActivityType {
    pub fn name(&self) -> (r: &'static str)
        ensures
            r@ == spec_activity_type_name(*self),
    {
        match self {
            ActivityType::SubProcess => "SubProcess",
            ActivityType::Task => "Task",
            ActivityType::ScriptTask => "ScriptTask",
            ActivityType::UserTask => "UserTask",
            ActivityType::ServiceTask => "ServiceTask",
            ActivityType::CallActivity => "CallActivity",
            ActivityType::ReceiveTask => "ReceiveTask",
            ActivityType::SendTask => "SendTask",
            ActivityType::ManualTask => "ManualTask",
            ActivityType::BusinessRuleTask => "BusinessRuleTask",
        }
    }
}

/// How a gateway type is shown.
pub open spec fn spec_gateway_type_name(t: GatewayType) -> Seq<char> {
    match t {
        GatewayType::Exclusive => "Exclusive"@,
        GatewayType::Inclusive => "Inclusive"@,
        GatewayType::Parallel => "Parallel"@,
        GatewayType::EventBased => "EventBased"@,
    }
}

impl GatewayType {
    pub fn name(&self) -> (r: &'static str)
        ensures
            r@ == spec_gateway_type_name(*self),
    {
        match self {
            GatewayType::Exclusive => "Exclusive",
            GatewayType::Inclusive => "Inclusive",
            GatewayType::Parallel => "Parallel",
            GatewayType::EventBased => "EventBased",
        }
    }

    /// The kind of user function that a branching gateway of this type needs.
    pub fn handler_type(&self) -> (r: Option<BpmnType>)
        ensures
            r == spec_handler_type(*self),
    {
        match self {
            GatewayType::Exclusive => Some(BpmnType::Exclusive),
            GatewayType::Inclusive => Some(BpmnType::Inclusive),
            GatewayType::EventBased => Some(BpmnType::EventBased),
            GatewayType::Parallel => None,
        }
    }
}

/// The kind of user function a branching gateway of this type needs.
pub open spec fn spec_handler_type(t: GatewayType) -> Option<BpmnType> {
    match t {
        GatewayType::Exclusive => Some(BpmnType::Exclusive),
        GatewayType::Inclusive => Some(BpmnType::Inclusive),
        GatewayType::EventBased => Some(BpmnType::EventBased),
        GatewayType::Parallel => None,
    }
}

/// An element's identity: the id from the BPMN file and its index within its process.
#[derive(Debug)]
pub struct Id {
    pub bpmn_id: String,
    pub local_id: usize,
}

impl Id {
    /// An id that does not point anywhere yet.
    pub fn new(bpmn_id: String) -> (r: Id)
        ensures
            r.bpmn_id == bpmn_id,
            r.local_id == 0,
    {
        Id { bpmn_id, local_id: 0 }
    }

    /// The id from the BPMN file.
    pub fn bpmn(&self) -> (r: &str)
        ensures
            r@ == self.bpmn_id@,
    {
        self.bpmn_id.as_str()
    }

    /// The index within the process.
    pub fn local(&self) -> (r: usize)
        ensures
            r == self.local_id,
    {
        self.local_id
    }
}

/// The outgoing sequence flows of an element: their BPMN ids and, once the
/// process is complete, their indices within the process.
#[derive(Debug)]
pub struct Outputs {
    pub bpmn_ids: Vec<String>,
    pub local_ids: Vec<usize>,
}

impl Outputs {
    /// Every output has both its BPMN id and its index.
    pub open spec fn wf(&self) -> bool {
        self.bpmn_ids.len() == self.local_ids.len()
    }

    /// Outputs that do not point anywhere yet.
    pub fn new(bpmn_ids: Vec<String>) -> (r: Outputs)
        ensures
            r.wf(),
            r.bpmn_ids == bpmn_ids,
            r.local_ids@ == Seq::new(bpmn_ids@.len(), |i: int| 0usize),
    {
        let n = bpmn_ids.len();
        let mut local_ids: Vec<usize> = Vec::new();
        let mut i: usize = 0;
        while i < n
            invariant
                i <= n,
                local_ids@ == Seq::new(i as nat, |k: int| 0usize),
            decreases n - i,
        {
            local_ids.push(0);
            i = i + 1;
            assert(local_ids@ =~= Seq::new(i as nat, |k: int| 0usize));
        }
        Outputs { bpmn_ids, local_ids }
    }

    /// The indices of the outputs.
    pub fn ids(&self) -> (r: &Vec<usize>)
        ensures
            r == &self.local_ids,
    {
        &self.local_ids
    }

    /// How many outputs there are.
    pub fn len(&self) -> (r: usize)
        ensures
            r == self.local_ids.len(),
    {
        self.local_ids.len()
    }

    /// The index of the first output, if there is one.
    pub fn first(&self) -> (r: Option<usize>)
        ensures
            r == (if self.local_ids@.len() > 0 { Some(self.local_ids@[0]) } else { None }),
    {
        if self.local_ids.len() > 0 {
            Some(self.local_ids[0])
        } else {
            None
        }
    }
}

#[derive(Debug)]
/// A gateway; `inputs` counts its incoming sequence flows.
pub struct Gateway {
    pub gateway_type: GatewayType,
    pub id: Id,
    pub func_idx: Option<usize>,
    pub name: Option<String>,
    pub default: Option<Id>,
    pub outputs: Outputs,
    pub inputs: u16,
}

#[derive(Debug)]
/// An event; a boundary event is attached to an activity.
pub struct Event {
    pub event_type: EventType,
    pub symbol: Option<Symbol>,
    pub id: Id,
    pub name: Option<String>,
    pub attached_to_ref: Option<Id>,
    pub outputs: Outputs,
}

#[derive(Debug)]
/// A task or a subprocess; a subprocess knows the index of its own process data.
pub struct Activity {
    pub activity_type: ActivityType,
    pub id: Id,
    pub func_idx: Option<usize>,
    pub data_index: Option<usize>,
    pub name: Option<String>,
    pub outputs: Outputs,
}

/// One element of a process.
#[derive(Debug)]
pub enum Bpmn {
    Activity(Activity),
    Event(Event),
    Gateway(Gateway),
    SequenceFlow { id: Id, name: Option<String>, target_ref: Id },
}

/// The name if there is one, else the id.
pub open spec fn spec_name_or_id(name: Option<String>, id: Id) -> Seq<char> {
    match name {
        Some(n) => n@,
        None => id.bpmn_id@,
    }
}

/// The name if there is one, else the BPMN id.
pub fn name_or_id<'a>(name: &'a Option<String>, id: &'a Id) -> (r: &'a str)
    ensures
        r@ == spec_name_or_id(*name, *id),
{
    match name {
        Some(n) => n.as_str(),
        None => id.bpmn_id.as_str(),
    }
}

/// How a gateway is shown in messages: its type, then its name or id in backquotes.
pub open spec fn spec_gateway_text(g: Gateway) -> Seq<char> {
    spec_gateway_type_name(g.gateway_type) + " `"@ + spec_name_or_id(g.name, g.id) + "`"@
}

/// How an event is shown in messages.
pub open spec fn spec_event_text(e: Event) -> Seq<char> {
    spec_event_type_name(e.event_type) + " `"@ + spec_name_or_id(e.name, e.id) + "`"@
}

/// How an activity is shown in messages.
pub open spec fn spec_activity_text(a: Activity) -> Seq<char> {
    spec_activity_type_name(a.activity_type) + " `"@ + spec_name_or_id(a.name, a.id) + "`"@
}

impl Gateway {
    pub fn text(&self) -> (r: String)
        ensures
            r@ == spec_gateway_text(*self),
    {
        join4(self.gateway_type.name(), " `", name_or_id(&self.name, &self.id), "`")
    }
}

impl Event {
    pub fn text(&self) -> (r: String)
        ensures
            r@ == spec_event_text(*self),
    {
        join4(self.event_type.name(), " `", name_or_id(&self.name, &self.id), "`")
    }
}

impl Activity {
    pub fn text(&self) -> (r: String)
        ensures
            r@ == spec_activity_text(*self),
    {
        join4(self.activity_type.name(), " `", name_or_id(&self.name, &self.id), "`")
    }
}

/// Errors that can occur while constructing bpmn types.
#[derive(Debug)]
pub enum BpmnError {
    MissingId(String),
    MissingTargetRef,
    NoOutput(String),
    BpmnRequirement(String),
    TypeNotImplemented(String),
}

/// Checks of a single element that can be made as soon as it has been read.
pub trait BpmnValidate {
    fn validate(&self) -> Result<(), BpmnError>;
}

impl BpmnValidate for Gateway {
    /// An event-based gateway needs at least two outgoing flows; any other gateway at least one.
    fn validate(&self) -> (r: Result<(), BpmnError>)
        ensures
            self.gateway_type == GatewayType::EventBased && self.outputs.local_ids.len() < 2 ==>
                (r matches Err(BpmnError::BpmnRequirement(m))
                && m@ == spec_gateway_text(*self) + " must have at least two outgoing sequence flows"@),
            !(self.gateway_type == GatewayType::EventBased && self.outputs.local_ids.len() < 2)
                && self.outputs.local_ids.len() == 0 ==>
                (r matches Err(BpmnError::NoOutput(m)) && m@ == spec_gateway_text(*self)),
            !(self.gateway_type == GatewayType::EventBased && self.outputs.local_ids.len() < 2)
                && self.outputs.local_ids.len() != 0 ==> r is Ok,
    {
        if self.gateway_type == GatewayType::EventBased && self.outputs.len() < 2 {
            let t = self.text();
            Err(BpmnError::BpmnRequirement(join2(t.as_str(), " must have at least two outgoing sequence flows")))
        } else if self.outputs.len() == 0 {
            Err(BpmnError::NoOutput(self.text()))
        } else {
            Ok(())
        }
    }
}

/// Whether an event needs at least one outgoing flow: start, boundary and
/// intermediate events do, except a link throw event, which jumps instead.
pub open spec fn spec_event_needs_output(e: Event) -> bool {
    (e.event_type == EventType::Boundary || e.event_type == EventType::Start
        || e.event_type == EventType::IntermediateCatch || e.event_type == EventType::IntermediateThrow)
    && !(e.event_type == EventType::IntermediateThrow && e.symbol == Some(Symbol::Link))
}

impl BpmnValidate for Event {
    fn validate(&self) -> (r: Result<(), BpmnError>)
        ensures
            spec_event_needs_output(*self) && self.outputs.local_ids.len() == 0 ==>
                (r matches Err(BpmnError::NoOutput(m)) && m@ == spec_event_text(*self)),
            !(spec_event_needs_output(*self) && self.outputs.local_ids.len() == 0) ==> r is Ok,
    {
        let needs = match self.event_type {
            EventType::Boundary | EventType::Start | EventType::IntermediateCatch => true,
            EventType::IntermediateThrow => self.symbol != Some(Symbol::Link),
            EventType::End => false,
        };
        if needs && self.outputs.len() == 0 {
            Err(BpmnError::NoOutput(self.text()))
        } else {
            Ok(())
        }
    }
}

impl BpmnValidate for Activity {
    /// Every activity, subprocesses included, needs an outgoing flow.
    fn validate(&self) -> (r: Result<(), BpmnError>)
        ensures
            self.outputs.local_ids.len() == 0 ==>
                (r matches Err(BpmnError::NoOutput(m)) && m@ == spec_activity_text(*self)),
            self.outputs.local_ids.len() != 0 ==> r is Ok,
    {
        if self.outputs.len() == 0 {
            Err(BpmnError::NoOutput(self.text()))
        } else {
            Ok(())
        }
    }
}

impl Bpmn {
    /// The element's identity.
    pub open spec fn spec_id(&self) -> Id {
        match self {
            Bpmn::Activity(a) => a.id,
            Bpmn::Event(e) => e.id,
            Bpmn::Gateway(g) => g.id,
            Bpmn::SequenceFlow { id, .. } => *id,
        }
    }

    /// The element's BPMN id.
    pub fn id(&self) -> (r: &str)
        ensures
            r@ == self.spec_id().bpmn_id@,
    {
        match self {
            Bpmn::Activity(a) => a.id.bpmn(),
            Bpmn::Event(e) => e.id.bpmn(),
            Bpmn::Gateway(g) => g.id.bpmn(),
            Bpmn::SequenceFlow { id, .. } => id.bpmn(),
        }
    }

    /// Sets the element's index within its process, and nothing else.
    pub fn update_local_id(&mut self, value: usize)
        ensures
            final(self).spec_id().bpmn_id == old(self).spec_id().bpmn_id,
            final(self).spec_id().local_id == value,
            final(self).same_but_id(*old(self)),
    {
        match self {
            Bpmn::Activity(a) => { a.id.local_id = value; }
            Bpmn::Event(e) => { e.id.local_id = value; }
            Bpmn::Gateway(g) => { g.id.local_id = value; }
            Bpmn::SequenceFlow { id, .. } => { id.local_id = value; }
        }
    }

    /// Equal except for the element's own local index.
    pub open spec fn same_but_id(&self, other: Bpmn) -> bool {
        match (*self, other) {
            (Bpmn::Activity(a), Bpmn::Activity(b)) =>
                a == Activity { id: Id { local_id: a.id.local_id, ..b.id }, ..b },
            (Bpmn::Event(a), Bpmn::Event(b)) =>
                a == Event { id: Id { local_id: a.id.local_id, ..b.id }, ..b },
            (Bpmn::Gateway(a), Bpmn::Gateway(b)) =>
                a == Gateway { id: Id { local_id: a.id.local_id, ..b.id }, ..b },
            (Bpmn::SequenceFlow { id: i1, name: n1, target_ref: t1 },
             Bpmn::SequenceFlow { id: i2, name: n2, target_ref: t2 }) =>
                i1.bpmn_id == i2.bpmn_id && n1 == n2 && t1 == t2,
            _ => false,
        }
    }

    /// The element's outputs, if it has any, have matching lengths.
    pub open spec fn outputs_ok(&self) -> bool {
        match self.spec_outputs() {
            Some(o) => o.wf(),
            None => true,
        }
    }

    /// The outgoing flows of a node; a sequence flow has none.
    pub open spec fn spec_outputs(&self) -> Option<Outputs> {
        match self {
            Bpmn::Activity(a) => Some(a.outputs),
            Bpmn::Event(e) => Some(e.outputs),
            Bpmn::Gateway(g) => Some(g.outputs),
            Bpmn::SequenceFlow { .. } => None,
        }
    }
}

} // verus!

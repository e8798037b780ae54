use snurr::bpmn::{BpmnError, BpmnType, Gateway, GatewayType, Id, Outputs, Symbol};
use snurr::builder::{parse_tokens, XmlToken};
use snurr::error::{BuildError, DiagramError, Error, ParseError, ParseErrorKind, RuntimeError};
use snurr::flows::sorted_distinct;
use snurr::func_map::FuncMap;
use snurr::reader::{line_and_column, read_bpmn};
use snurr::tokens::{all_same, ExecuteHandler, TokenData};
use snurr::{Exclusive, Inclusive, IntermediateEvent, ProcessBuilder, Task};
use std::sync::atomic::{AtomicU32, Ordering::Relaxed};
use std::sync::Mutex;

#[derive(Debug, Default)]
struct Count(AtomicU32);

impl Count {
    fn get(&self) -> u32 {
        self.0.load(Relaxed)
    }
}

fn add(value: u32) -> impl Fn(&Count) -> Task + Sync + Send + 'static {
    move |c| {
        c.0.fetch_add(value, Relaxed);
        Task::Default
    }
}

fn wrap(body: &str) -> String {
    format!(
        "<?xml version=\"1.0\" encoding=\"UTF-8\"?>\n<definitions id=\"D\">\n<process id=\"P\">\n{}\n</process>\n</definitions>\n",
        body
    )
}

fn flow(id: &str, source: &str, target: &str) -> String {
    format!("<sequenceFlow id=\"{id}\" sourceRef=\"{source}\" targetRef=\"{target}\" />")
}

fn named_flow(id: &str, name: &str, source: &str, target: &str) -> String {
    format!("<sequenceFlow id=\"{id}\" name=\"{name}\" sourceRef=\"{source}\" targetRef=\"{target}\" />")
}

/// An element with its outgoing flows and an optional extra child.
fn node(tag: &str, attrs: &str, outgoing: &[&str], extra: &str) -> String {
    let outs: String = outgoing.iter().map(|o| format!("<outgoing>{o}</outgoing>")).collect();
    format!("<{tag} {attrs}>{outs}{extra}</{tag}>")
}

/// A gateway with its incoming and outgoing flows.
fn gateway(tag: &str, attrs: &str, incoming: &[&str], outgoing: &[&str]) -> String {
    let ins: String = incoming.iter().map(|i| format!("<incoming>{i}</incoming>")).collect();
    let outs: String = outgoing.iter().map(|o| format!("<outgoing>{o}</outgoing>")).collect();
    format!("<{tag} {attrs}>{ins}{outs}</{tag}>")
}

fn counter_xml() -> String {
    wrap(&[
        node("startEvent", "id=\"S\"", &["F1"], ""),
        node("task", "id=\"T\" name=\"Count 1\"", &["F2"], ""),
        node("exclusiveGateway", "id=\"G\" name=\"equal to 3\" default=\"F_YES\"", &["F_YES", "F_NO"], ""),
        node("endEvent", "id=\"E\"", &[], ""),
        flow("F1", "S", "T"),
        flow("F2", "T", "G"),
        named_flow("F_YES", "YES", "G", "E"),
        named_flow("F_NO", "NO", "G", "T"),
    ]
    .join("\n"))
}

fn parse_error(xml: &str) -> ParseErrorKind {
    match read_bpmn(xml) {
        Err(ParseError { source, .. }) => source,
        Ok(_) => panic!("expected a parse error"),
    }
}

#[test]
fn counter_loops_until_three() {
    let process = ProcessBuilder::<Count>::parse(&counter_xml())
        .unwrap()
        .task("Count 1", add(1))
        .exclusive("equal to 3", |c| {
            if c.get() == 3 {
                Exclusive::flow("YES")
            } else {
                Exclusive::flow("NO")
            }
        })
        .build()
        .unwrap();
    assert_eq!(process.run(Count::default()).unwrap().get(), 3);
    // A process can be run more than once.
    assert_eq!(process.run(Count::default()).unwrap().get(), 3);
}

#[test]
fn scaffold_of_counter() {
    let builder = ProcessBuilder::<()>::parse(&counter_xml()).unwrap();
    let expected = "use snurr::{Process, ProcessBuilder, error::BuildError};\n\n// Replace () with your type\npub fn build(process_builder: ProcessBuilder<()>) -> Result<Process<()>, BuildError> {\n    process_builder\n        .task(\"Count 1\", |input| Default::default())\n        // outputs: YES, NO\n        .exclusive(\"equal to 3\", |input| Default::default())\n        .build()\n}";
    assert_eq!(builder.scaffold(), expected);
}

#[test]
fn scaffold_lists_boundaries_and_each_name_once() {
    let xml = wrap(&[
        node("startEvent", "id=\"S\"", &["F1"], ""),
        node("task", "id=\"T1\" name=\"Work\"", &["F2"], ""),
        node("task", "id=\"T2\" name=\"Work\"", &["F3"], ""),
        node("boundaryEvent", "id=\"B\" name=\"Late\" attachedToRef=\"T1\"", &["F4"], "<timerEventDefinition />"),
        node("endEvent", "id=\"E\"", &[], ""),
        flow("F1", "S", "T1"),
        flow("F2", "T1", "T2"),
        flow("F3", "T2", "E"),
        flow("F4", "B", "E"),
    ]
    .join("\n"));
    let code = ProcessBuilder::<()>::parse(&xml).unwrap().scaffold();
    assert_eq!(code.matches(".task(\"Work\"").count(), 1);
    assert!(code.contains("        // \"Work\" boundary symbols: [(Some(\"Late\"), Timer)]\n"));
}

#[test]
fn build_reports_each_missing_function_once() {
    let xml = wrap(&[
        node("startEvent", "id=\"S\"", &["F1"], ""),
        node("task", "id=\"T1\" name=\"A\"", &["F2"], ""),
        node("userTask", "id=\"T2\" name=\"B\"", &["F3"], ""),
        node("task", "id=\"T3\" name=\"A\"", &["F4"], ""),
        node("endEvent", "id=\"E\"", &[], ""),
        flow("F1", "S", "T1"),
        flow("F2", "T1", "T2"),
        flow("F3", "T2", "T3"),
        flow("F4", "T3", "E"),
    ]
    .join("\n"));
    let result = ProcessBuilder::<()>::parse(&xml).unwrap().build();
    match result {
        Err(BuildError::MissingImplementations(m)) => assert_eq!(m, "Task: A, UserTask: B"),
        Ok(_) => panic!("expected a build error"),
    }
    // Registering by id serves the element too.
    let ok = ProcessBuilder::<()>::parse(&xml)
        .unwrap()
        .task("T1", |_| Task::Default)
        .task("T3", |_| Task::Default)
        .task("B", |_| Task::Default)
        .build();
    assert!(ok.is_ok());
}

#[test]
fn func_map_resolves_id_before_name() {
    let mut map = FuncMap::new();
    map.insert(BpmnType::Task, "Name".to_string(), 1);
    map.insert(BpmnType::Task, "Id_1".to_string(), 2);
    let id = Id::new("Id_1".to_string());
    assert_eq!(map.get_id(BpmnType::Task, &id, Some("Name")), Some(2));
    let other = Id::new("Id_2".to_string());
    assert_eq!(map.get_id(BpmnType::Task, &other, Some("Name")), Some(1));
    assert_eq!(map.get_id(BpmnType::Exclusive, &other, Some("Name")), None);
    // A later registration under the same name replaces the earlier one.
    map.insert(BpmnType::Task, "Name".to_string(), 7);
    assert_eq!(map.get_id(BpmnType::Task, &other, Some("Name")), Some(7));
}

#[test]
fn parse_rejects_multiple_start_events() {
    let xml = wrap(&[
        node("startEvent", "id=\"S1\"", &["F1"], ""),
        node("startEvent", "id=\"S2\"", &["F2"], ""),
        node("endEvent", "id=\"E\"", &[], ""),
        flow("F1", "S1", "E"),
        flow("F2", "S2", "E"),
    ]
    .join("\n"));
    match parse_error(&xml) {
        ParseErrorKind::NotSupported(m) => assert_eq!(m, "multiple start event"),
        other => panic!("unexpected {other:?}"),
    }
}

#[test]
fn parse_rejects_missing_start_event() {
    let xml = wrap(&[node("endEvent", "id=\"E\"", &[], "")].join("\n"));
    assert!(matches!(parse_error(&xml), ParseErrorKind::MissingStartEvent));
}

#[test]
fn parse_rejects_missing_id_and_target() {
    let xml = wrap(&[node("startEvent", "name=\"S\"", &["F1"], "")].join("\n"));
    match parse_error(&xml) {
        ParseErrorKind::Bpmn(BpmnError::MissingId(t)) => assert_eq!(t, "startEvent"),
        other => panic!("unexpected {other:?}"),
    }
    let xml = wrap("<sequenceFlow id=\"F1\" sourceRef=\"S\" />");
    assert!(matches!(parse_error(&xml), ParseErrorKind::Bpmn(BpmnError::MissingTargetRef)));
}

#[test]
fn parse_rejects_element_without_output() {
    let xml = wrap(&[
        node("startEvent", "id=\"S\"", &["F1"], ""),
        node("task", "id=\"T\" name=\"Lost\"", &[], ""),
        flow("F1", "S", "T"),
    ]
    .join("\n"));
    match parse_error(&xml) {
        ParseErrorKind::Bpmn(BpmnError::NoOutput(m)) => assert_eq!(m, "Task `Lost`"),
        other => panic!("unexpected {other:?}"),
    }
}

#[test]
fn parse_rejects_conditional_sequence_flow() {
    let xml = wrap("<sequenceFlow id=\"F1\" name=\"IF\" sourceRef=\"S\" targetRef=\"E\"><conditionExpression>x</conditionExpression></sequenceFlow>");
    let kind = parse_error(&xml);
    match &kind {
        ParseErrorKind::NotSupported(m) => assert_eq!(m, "IF: conditional sequence flow"),
        other => panic!("unexpected {other:?}"),
    }
    assert_eq!(kind.message(), "`IF: conditional sequence flow` not supported");
}

#[test]
fn xml_error_reports_line_and_column() {
    let xml = "<definitions>\n  <process id=\"P\">\n  </wrong>\n</definitions>";
    match parse_error(xml) {
        ParseErrorKind::Xml { line, column, .. } => {
            assert_eq!(line, 3);
            assert!(column > 0);
        }
        other => panic!("unexpected {other:?}"),
    }
}

#[test]
fn line_and_column_counts_characters() {
    let text = "ab\ncdé\nf".as_bytes().to_vec();
    assert_eq!(line_and_column(&text, 0).unwrap(), (1, 0));
    assert_eq!(line_and_column(&text, 2).unwrap(), (1, 2));
    assert_eq!(line_and_column(&text, 3).unwrap(), (2, 0));
    // "é" takes two bytes but is one character.
    assert_eq!(line_and_column(&text, 7).unwrap(), (2, 3));
    match line_and_column(&text, 6) {
        Err(ParseError { source: ParseErrorKind::Encoding(m), .. }) => {
            assert_eq!(m, "incomplete utf-8 byte sequence from index 5")
        }
        other => panic!("unexpected {other:?}"),
    }
}

#[test]
fn empty_input_gives_empty_diagram_that_cannot_run() {
    let diagram = parse_tokens(Vec::new()).unwrap();
    assert!(diagram.definitions.is_empty());
    let process = ProcessBuilder::<()>::parse("<definitions/>").unwrap().build().unwrap();
    match process.run(()) {
        Err(RuntimeError::Engine(m)) => assert_eq!(m, "missing top level process"),
        other => panic!("unexpected {other:?}"),
    }
}

#[test]
fn tokens_build_a_diagram() {
    let attrs = |pairs: &[(&str, &str)]| -> Vec<Option<(String, String)>> {
        pairs.iter().map(|(k, v)| Some((k.to_string(), v.to_string()))).collect()
    };
    let tokens = vec![
        XmlToken::Start { name: "process".to_string(), attributes: attrs(&[("id", "P")]) },
        XmlToken::Start { name: "startEvent".to_string(), attributes: attrs(&[("id", "S"), ("ignored", "x")]) },
        XmlToken::Start { name: "outgoing".to_string(), attributes: vec![] },
        XmlToken::Text("F1".to_string()),
        XmlToken::End { name: "outgoing".to_string() },
        XmlToken::End { name: "startEvent".to_string() },
        XmlToken::Start { name: "endEvent".to_string(), attributes: vec![None, Some(("id".to_string(), "E".to_string()))] },
        XmlToken::End { name: "endEvent".to_string() },
        XmlToken::Empty { name: "sequenceFlow".to_string(), attributes: attrs(&[("id", "F1"), ("sourceRef", "S"), ("targetRef", "E")]) },
        XmlToken::Other,
        XmlToken::End { name: "process".to_string() },
    ];
    let diagram = parse_tokens(tokens).unwrap();
    assert_eq!(diagram.definitions, vec![0]);
    assert_eq!(diagram.data.len(), 1);
    let pd = &diagram.data[0];
    assert_eq!(pd.data.len(), 3);
    assert_eq!(pd.start, 0);
}

#[test]
fn runtime_errors_of_tasks_and_gateways() {
    let xml = wrap(&[
        node("startEvent", "id=\"S\"", &["F1"], ""),
        node("task", "id=\"T\" name=\"Work\"", &["F2"], ""),
        node("exclusiveGateway", "id=\"G\" name=\"Pick\"", &["F3", "F4"], ""),
        node("endEvent", "id=\"E1\"", &[], ""),
        node("endEvent", "id=\"E2\"", &[], ""),
        flow("F1", "S", "T"),
        flow("F2", "T", "G"),
        named_flow("F3", "A", "G", "E1"),
        named_flow("F4", "B", "G", "E2"),
    ]
    .join("\n"));
    let run = |task: fn(&()) -> Task, pick: fn(&()) -> Exclusive| {
        ProcessBuilder::<()>::parse(&xml).unwrap().task("Work", task).exclusive("Pick", pick).build().unwrap().run(())
    };
    match run(|_| Task::boundary(Some("Late"), Symbol::Timer), |_| Exclusive::Default) {
        Err(RuntimeError::Diagram(DiagramError::MissingBoundary(a, b))) => {
            assert_eq!(a, "(Some(\"Late\"),Timer)");
            assert_eq!(b, "Task `Work`");
        }
        other => panic!("unexpected {other:?}"),
    }
    match run(|_| Task::panic("boom"), |_| Exclusive::Default) {
        Err(RuntimeError::Panic(m)) => assert_eq!(m, "boom"),
        other => panic!("unexpected {other:?}"),
    }
    match run(|_| Task::Default, |_| Exclusive::Default) {
        Err(RuntimeError::Diagram(DiagramError::MissingDefault(m))) => assert_eq!(m, "Exclusive `Pick`"),
        other => panic!("unexpected {other:?}"),
    }
    match run(|_| Task::Default, |_| Exclusive::flow("C")) {
        Err(RuntimeError::Diagram(e @ DiagramError::MissingOutput(_))) => assert_eq!(e.message(), "Exclusive `Pick`"),
        other => panic!("unexpected {other:?}"),
    }
    match run(|_| Task::Default, |_| Exclusive::panic("stop")) {
        Err(RuntimeError::Panic(m)) => assert_eq!(m, "stop"),
        other => panic!("unexpected {other:?}"),
    }
    assert!(run(|_| Task::Default, |_| Exclusive::flow("B")).is_ok());
}

#[test]
fn event_gateway_without_matching_catch() {
    let xml = wrap(&[
        node("startEvent", "id=\"S\"", &["F1"], ""),
        node("eventBasedGateway", "id=\"G\" name=\"Wait\"", &["F2", "F3"], ""),
        node("intermediateCatchEvent", "id=\"C1\" name=\"Ping\"", &["F4"], "<messageEventDefinition />"),
        node("intermediateCatchEvent", "id=\"C2\" name=\"Later\"", &["F5"], "<timerEventDefinition />"),
        node("endEvent", "id=\"E\"", &[], ""),
        flow("F1", "S", "G"),
        flow("F2", "G", "C1"),
        flow("F3", "G", "C2"),
        flow("F4", "C1", "E"),
        flow("F5", "C2", "E"),
    ]
    .join("\n"));
    let run = |thrown: fn(&()) -> IntermediateEvent| {
        ProcessBuilder::<()>::parse(&xml).unwrap().event_based("Wait", thrown).build().unwrap().run(())
    };
    match run(|_| IntermediateEvent::throw("Pong", Symbol::Message)) {
        Err(RuntimeError::Diagram(DiagramError::MissingIntermediateEvent(a, b))) => {
            assert_eq!(a, "EventBased `Wait`");
            assert_eq!(b, "(Pong,Message)");
        }
        other => panic!("unexpected {other:?}"),
    }
    assert!(run(|_| IntermediateEvent::throw("Ping", Symbol::Message)).is_ok());
    assert!(matches!(run(|_| IntermediateEvent::panic("no")), Err(RuntimeError::Panic(_))));
}

#[test]
fn event_callbacks_are_called_and_can_stop_the_run() {
    let xml = wrap(&[
        node("startEvent", "id=\"S\"", &["F1"], ""),
        node("intermediateThrowEvent", "id=\"TH\" name=\"Send\"", &["F2"], "<messageEventDefinition />"),
        node("intermediateCatchEvent", "id=\"CA\" name=\"Wait\"", &["F3"], "<timerEventDefinition />"),
        node("endEvent", "id=\"E\" name=\"Done\"", &[], "<messageEventDefinition />"),
        flow("F1", "S", "TH"),
        flow("F2", "TH", "CA"),
        flow("F3", "CA", "E"),
    ]
    .join("\n"));
    let seen = std::sync::Arc::new(Mutex::new(Vec::<String>::new()));
    let (a, b, c) = (seen.clone(), seen.clone(), seen.clone());
    let process = ProcessBuilder::<()>::parse(&xml)
        .unwrap()
        .intermediate_throw_event(move |_, name, symbol| {
            a.lock().unwrap().push(format!("throw {:?} {:?}", name, symbol));
            Ok(())
        })
        .intermediate_catch_event(move |_, name, symbol| {
            b.lock().unwrap().push(format!("catch {:?} {:?}", name, symbol));
            Ok(())
        })
        .end_event(move |_, name, symbol| {
            c.lock().unwrap().push(format!("end {:?} {:?}", name, symbol));
            Err("ended".to_string())
        })
        .build()
        .unwrap();
    match process.run(()) {
        Err(RuntimeError::Panic(m)) => assert_eq!(m, "ended"),
        other => panic!("unexpected {other:?}"),
    }
    assert_eq!(
        *seen.lock().unwrap(),
        vec![
            "throw Some(\"Send\") Message".to_string(),
            "catch Some(\"Wait\") Timer".to_string(),
            "end Some(\"Done\") Message".to_string(),
        ]
    );
}

#[test]
fn missing_end_event_when_no_token_ends() {
    let xml = wrap(&[
        node("startEvent", "id=\"S\"", &["F1"], ""),
        node("task", "id=\"T\" name=\"Idle\"", &["F2"], ""),
        gateway("inclusiveGateway", "id=\"J\"", &["F1", "F2"], &["F3"]),
        node("endEvent", "id=\"E\"", &[], ""),
        flow("F1", "S", "J"),
        flow("F2", "T", "J"),
        flow("F3", "J", "E"),
    ]
    .join("\n"));
    let process = ProcessBuilder::<()>::parse(&xml).unwrap().task("Idle", |_| Task::Default).build().unwrap();
    match process.run(()) {
        Err(RuntimeError::Diagram(e @ DiagramError::MissingEndEvent)) => assert_eq!(e.message(), "missing end event"),
        other => panic!("unexpected {other:?}"),
    }
}

fn fork_into(join_a: &str, join_b: &str, kind: &str) -> String {
    wrap(&[
        node("startEvent", "id=\"S\"", &["F1"], ""),
        node("parallelGateway", "id=\"P\"", &["F2", "F3"], ""),
        gateway(kind, "id=\"J1\" name=\"J1\"", &["F2", "F4"], &["F6"]),
        gateway(kind, "id=\"J2\" name=\"J2\"", &["F3", "F5"], &["F7"]),
        node("task", "id=\"X\" name=\"X\"", &["F4", "F5"], ""),
        node("endEvent", "id=\"E1\"", &[], ""),
        node("endEvent", "id=\"E2\"", &[], ""),
        flow("F1", "S", "P"),
        flow("F2", "P", join_a),
        flow("F3", "P", join_b),
        flow("F4", "X", "J1"),
        flow("F5", "X", "J2"),
        flow("F6", "J1", "E1"),
        flow("F7", "J2", "E2"),
    ]
    .join("\n"))
}

#[test]
fn unbalanced_and_stalled_joins_stop_the_run() {
    let process = ProcessBuilder::<()>::parse(&fork_into("J1", "J2", "inclusiveGateway"))
        .unwrap()
        .task("X", |_| Task::Default)
        .build()
        .unwrap();
    match process.run(()) {
        Err(RuntimeError::Diagram(DiagramError::NotSupported(m))) => assert_eq!(m, "Unbalanced diagram"),
        other => panic!("unexpected {other:?}"),
    }
    let process = ProcessBuilder::<()>::parse(&fork_into("J1", "E1", "parallelGateway"))
        .unwrap()
        .task("X", |_| Task::Default)
        .build()
        .unwrap();
    match process.run(()) {
        Err(RuntimeError::Diagram(DiagramError::BpmnRequirement(m))) => {
            assert_eq!(m, "Execution stopped. Not enough tokens at Parallel `J1`")
        }
        other => panic!("unexpected {other:?}"),
    }
}

#[test]
fn inclusive_fork_discards_duplicates_and_sorts() {
    let names = vec!["b".to_string(), "a".to_string(), "b".to_string(), "ab".to_string()];
    assert_eq!(sorted_distinct(&names), vec!["a".to_string(), "ab".to_string(), "b".to_string()]);
    let upper = vec!["a".to_string(), "B".to_string()];
    assert_eq!(sorted_distinct(&upper), vec!["B".to_string(), "a".to_string()]);
}

#[test]
fn token_groups_close_when_all_tokens_are_consumed() {
    let mut handler = ExecuteHandler::new(vec![0]);
    assert_eq!(handler.active_tokens(), vec![vec![0]]);
    handler.pending_fork(vec![1, 2]);
    handler.commit();
    assert_eq!(handler.tokens_ready, vec![vec![1, 2]]);
    assert_eq!(handler.token_stack.len(), 1);
    let diagram = read_bpmn(&counter_xml()).unwrap();
    let data = &diagram.data[0];
    handler.consume_token(None);
    assert_eq!(handler.tokens_consumed(data).unwrap(), None);
    assert_eq!(handler.token_stack.len(), 1);
    handler.consume_token(None);
    assert_eq!(handler.tokens_consumed(data).unwrap(), None);
    assert!(handler.token_stack.is_empty());

    let mut group = TokenData::new(2);
    group.consume(Some(4));
    assert!(!group.consumed());
    group.consume(Some(4));
    assert!(group.consumed());
    assert!(all_same(&group.joined));
    assert!(!all_same(&vec![1, 2]));
}

#[test]
fn inclusive_default_without_default_flow() {
    let gateway = Gateway {
        gateway_type: GatewayType::Inclusive,
        id: Id::new("G".to_string()),
        func_idx: None,
        name: None,
        default: None,
        outputs: Outputs::new(vec!["F1".to_string(), "F2".to_string()]),
        inputs: 1,
    };
    let diagram = read_bpmn(&counter_xml()).unwrap();
    let pd = &diagram.data[0];
    match snurr::engine::inclusive_next(pd, &gateway, Inclusive::Default) {
        Err(RuntimeError::Diagram(DiagramError::MissingDefault(m))) => assert_eq!(m, "Inclusive `G`"),
        other => panic!("unexpected {other:?}"),
    }
    assert!(matches!(snurr::engine::exclusive_next(pd, &gateway, Exclusive::Default),
        Err(RuntimeError::Diagram(DiagramError::MissingDefault(_)))));
}

#[test]
fn error_messages() {
    let e: Error = BuildError::MissingImplementations("Task: A".to_string()).into();
    assert_eq!(e.message(), "missing implementations Task: A");
    let e: Error = RuntimeError::Engine("x".to_string()).into();
    assert_eq!(e.message(), "engine failure `x`");
    let d = DiagramError::MissingIntermediateCatchEvent("Link".to_string(), "L".to_string());
    assert_eq!(d.message(), "missing intermediate catch event symbol Link with name L");
    let k = ParseErrorKind::Xml { line: 12, column: 7, source: "bad".to_string() };
    assert_eq!(k.message(), "xml error on line `12` and column `7`");
    assert_eq!(BpmnError::MissingId("task".to_string()).message(), "tag `task` missing attribute id");
}

#[test]
fn plain_path_runs_to_end_without_functions() {
    let xml = wrap(&[
        node("startEvent", "id=\"S\"", &["F1"], ""),
        node("intermediateThrowEvent", "id=\"I\" name=\"Pass\"", &["F2"], ""),
        gateway("exclusiveGateway", "id=\"G\"", &["F2"], &["F3"]),
        node("endEvent", "id=\"E\"", &[], ""),
        flow("F1", "S", "I"),
        flow("F2", "I", "G"),
        flow("F3", "G", "E"),
    ]
    .join("\n"));
    let process = ProcessBuilder::<u32>::parse(&xml).unwrap().build().unwrap();
    assert_eq!(process.run(7).unwrap(), 7);
    assert_eq!(process.run(8).unwrap(), 8);
}

/// The counter diagram of the examples, read from its text (the example files
/// are not shipped with the tests).
#[test]
fn reader_load_file() {
    let result = read_bpmn(&counter_xml());
    println!("{:#?}", result);
    assert!(result.is_ok());
}

#[test]
fn scaffold_registers_every_task_icon() {
    let xml = wrap(&[
        node("startEvent", "id=\"S\"", &["F1"], ""),
        node("userTask", "id=\"T1\" name=\"Ask\"", &["F2"], ""),
        node("serviceTask", "id=\"T2\" name=\"Call\"", &["F3"], ""),
        node("endEvent", "id=\"E\"", &[], ""),
        flow("F1", "S", "T1"),
        flow("F2", "T1", "T2"),
        flow("F3", "T2", "E"),
    ]
    .join("\n"));
    let code = ProcessBuilder::<()>::parse(&xml).unwrap().scaffold();
    assert!(code.contains("        .task(\"Ask\", |input| Default::default())"));
    assert!(code.contains("        .task(\"Call\", |input| Default::default())"));
}

#[test]
fn start_path_error_stops_the_run() {
    let xml = wrap(&[
        node("startEvent", "id=\"S\"", &["F1"], ""),
        node("intermediateThrowEvent", "id=\"I\"", &["F2"], "<messageEventDefinition />"),
        node("endEvent", "id=\"E\"", &[], ""),
        flow("F1", "S", "I"),
        flow("F2", "I", "E"),
    ]
    .join("\n"));
    let process = ProcessBuilder::<()>::parse(&xml).unwrap().build().unwrap();
    match process.run(()) {
        Err(RuntimeError::Diagram(DiagramError::MissingIntermediateThrowEventName(id))) => assert_eq!(id, "I"),
        other => panic!("unexpected {other:?}"),
    }
}

fn token_attrs(pairs: &[(&str, &str)]) -> Vec<Option<(String, String)>> {
    pairs.iter().map(|(k, v)| Some((k.to_string(), v.to_string()))).collect()
}

#[test]
fn tokens_of_a_process_without_start_event_fail() {
    let tokens = vec![
        XmlToken::Start { name: "process".to_string(), attributes: token_attrs(&[("id", "P")]) },
        XmlToken::Start { name: "endEvent".to_string(), attributes: token_attrs(&[("id", "E")]) },
        XmlToken::End { name: "endEvent".to_string() },
        XmlToken::End { name: "process".to_string() },
    ];
    match parse_tokens(tokens) {
        Err(ParseError { source: ParseErrorKind::MissingStartEvent, .. }) => {}
        other => panic!("unexpected {other:?}"),
    }
}

#[test]
fn tokens_of_a_conditional_sequence_flow_fail() {
    let tokens = vec![
        XmlToken::Start { name: "process".to_string(), attributes: token_attrs(&[("id", "P")]) },
        XmlToken::Start {
            name: "sequenceFlow".to_string(),
            attributes: token_attrs(&[("id", "F1"), ("name", "cond"), ("sourceRef", "S"), ("targetRef", "E")]),
        },
        XmlToken::End { name: "sequenceFlow".to_string() },
        XmlToken::End { name: "process".to_string() },
    ];
    match parse_tokens(tokens) {
        Err(ParseError { source: ParseErrorKind::NotSupported(m), .. }) => assert_eq!(m, "cond: conditional sequence flow"),
        other => panic!("unexpected {other:?}"),
    }
    let tokens = vec![
        XmlToken::Start { name: "process".to_string(), attributes: token_attrs(&[("id", "P")]) },
        XmlToken::Start { name: "sequenceFlow".to_string(), attributes: token_attrs(&[("id", "F2")]) },
        XmlToken::End { name: "sequenceFlow".to_string() },
    ];
    match parse_tokens(tokens) {
        Err(ParseError { source: ParseErrorKind::NotSupported(m), .. }) => assert_eq!(m, "F2: conditional sequence flow"),
        other => panic!("unexpected {other:?}"),
    }
}

#[test]
fn conversions_into_answers() {
    match Exclusive::from("YES".to_string()) {
        Exclusive::Flow(s) => assert_eq!(s, "YES"),
        other => panic!("unexpected {other:?}"),
    }
    let i: Inclusive = "NO".to_string().into();
    match i {
        Inclusive::Flow(s) => assert_eq!(s, "NO"),
        other => panic!("unexpected {other:?}"),
    }
    let i: Inclusive = vec!["YES".to_string(), "NO".to_string()].into();
    match i {
        Inclusive::Fork(v) => assert_eq!(v, vec!["YES".to_string(), "NO".to_string()]),
        other => panic!("unexpected {other:?}"),
    }
    let t: Task = ("Timeout".to_string(), Symbol::Timer).into();
    match t {
        Task::Boundary(Some(n), Symbol::Timer) => assert_eq!(n, "Timeout"),
        other => panic!("unexpected {other:?}"),
    }
    let t: Task = Symbol::Error.into();
    assert!(matches!(t, Task::Boundary(None, Symbol::Error)));
    let e: IntermediateEvent = ("Link A".to_string(), Symbol::Link).into();
    match e {
        IntermediateEvent::Throw(n, Symbol::Link) => assert_eq!(n, "Link A"),
        other => panic!("unexpected {other:?}"),
    }
}

use snurr::error::{DiagramError, Error, RuntimeError};
use snurr::{Exclusive, Inclusive, IntermediateEvent, ProcessBuilder, Symbol, Task};
use std::sync::atomic::{AtomicU32, Ordering::Relaxed};

type Result<T> = std::result::Result<T, Error>;

const COUNT_1: &str = "Count 1";
const COUNT_2: &str = "Count 2";
const COUNT_3: &str = "Count 3";
const COUNT_4: &str = "Count 4";

#[derive(Debug, Default)]
struct Counter {
    count: AtomicU32,
}

impl Counter {
    fn get(&self) -> u32 {
        self.count.load(Relaxed)
    }
}

fn func_cnt(value: u32) -> impl Fn(&Counter) -> Task + Sync + Send + 'static {
    move |input| {
        input.count.fetch_add(value, Relaxed);
        Task::Default
    }
}

// A small writer of BPMN diagrams: elements, and sequence flows between them.
// Each element gets its `outgoing` and `incoming` children from the flows.

struct El {
    tag: &'static str,
    id: String,
    name: Option<String>,
    definition: Option<&'static str>,
    attached: Option<String>,
    default: Option<String>,
    children: Option<(Vec<El>, Vec<Flow>)>,
}

struct Flow {
    id: String,
    name: Option<String>,
    source: String,
    target: String,
}

fn el(tag: &'static str, id: &str, name: &str) -> El {
    El {
        tag,
        id: id.to_string(),
        name: if name.is_empty() { None } else { Some(name.to_string()) },
        definition: None,
        attached: None,
        default: None,
        children: None,
    }
}

impl El {
    fn def(mut self, definition: &'static str) -> El {
        self.definition = Some(definition);
        self
    }
    fn on(mut self, attached: &str) -> El {
        self.attached = Some(attached.to_string());
        self
    }
    fn default_flow(mut self, flow: &str) -> El {
        self.default = Some(flow.to_string());
        self
    }
    fn sub(mut self, els: Vec<El>, flows: Vec<Flow>) -> El {
        self.children = Some((els, flows));
        self
    }
}

fn start(id: &str) -> El {
    el("startEvent", id, "")
}
fn end(id: &str) -> El {
    el("endEvent", id, "")
}
fn task(id: &str, name: &str) -> El {
    el("task", id, name)
}
fn xgw(id: &str, name: &str) -> El {
    el("exclusiveGateway", id, name)
}
fn igw(id: &str, name: &str) -> El {
    el("inclusiveGateway", id, name)
}
fn pgw(id: &str) -> El {
    el("parallelGateway", id, "")
}
fn sub(id: &str, name: &str) -> El {
    el("subProcess", id, name)
}

fn f(id: &str, source: &str, target: &str) -> Flow {
    Flow { id: id.to_string(), name: None, source: source.to_string(), target: target.to_string() }
}
fn fname(id: &str, name: &str, source: &str, target: &str) -> Flow {
    Flow { id: id.to_string(), name: Some(name.to_string()), source: source.to_string(), target: target.to_string() }
}

fn render(els: &[El], flows: &[Flow], out: &mut String) {
    for e in els {
        out.push_str(&format!("\n<bpmn:{} id=\"{}\"", e.tag, e.id));
        if let Some(n) = &e.name {
            out.push_str(&format!(" name=\"{}\"", n));
        }
        if let Some(a) = &e.attached {
            out.push_str(&format!(" attachedToRef=\"{}\"", a));
        }
        if let Some(d) = &e.default {
            out.push_str(&format!(" default=\"{}\"", d));
        }
        out.push('>');
        for fl in flows.iter().filter(|fl| fl.target == e.id) {
            out.push_str(&format!("\n  <bpmn:incoming>{}</bpmn:incoming>", fl.id));
        }
        for fl in flows.iter().filter(|fl| fl.source == e.id) {
            out.push_str(&format!("\n  <bpmn:outgoing>{}</bpmn:outgoing>", fl.id));
        }
        if let Some(d) = e.definition {
            out.push_str(&format!("\n  <bpmn:{} id=\"{}_def\" />", d, e.id));
        }
        if let Some((children, child_flows)) = &e.children {
            render(children, child_flows, out);
        }
        out.push_str(&format!("\n</bpmn:{}>", e.tag));
    }
    for fl in flows {
        out.push_str(&format!("\n<bpmn:sequenceFlow id=\"{}\"", fl.id));
        if let Some(n) = &fl.name {
            out.push_str(&format!(" name=\"{}\"", n));
        }
        out.push_str(&format!(" sourceRef=\"{}\" targetRef=\"{}\" />", fl.source, fl.target));
    }
}

fn diagram(processes: Vec<(Vec<El>, Vec<Flow>)>) -> String {
    let mut out = String::from(
        "<?xml version=\"1.0\" encoding=\"UTF-8\"?>\n<bpmn:definitions xmlns:bpmn=\"http://www.omg.org/spec/BPMN/20100524/MODEL\" id=\"Definitions_1\">",
    );
    for (i, (els, flows)) in processes.iter().enumerate() {
        out.push_str(&format!("\n<bpmn:process id=\"Process_{}\" isExecutable=\"true\">", i + 1));
        render(els, flows, &mut out);
        out.push_str("\n</bpmn:process>");
    }
    out.push_str("\n</bpmn:definitions>\n");
    out
}

fn process(els: Vec<El>, flows: Vec<Flow>) -> String {
    diagram(vec![(els, flows)])
}

fn builder(xml: &str) -> Result<ProcessBuilder<Counter>> {
    Ok(ProcessBuilder::parse(xml)?)
}

// The diagrams.

/// start -> Count 1 -> equal to 3 (YES: end, NO: back to Count 1; default YES)
fn counter_bpmn() -> String {
    process(
        vec![
            start("S"),
            task("T", "Count 1"),
            xgw("G", "equal to 3").default_flow("F_YES"),
            end("E"),
        ],
        vec![f("F1", "S", "T"), f("F2", "T", "G"), fname("F_YES", "YES", "G", "E"), fname("F_NO", "NO", "G", "T")],
    )
}

fn exclusive_gateway_bpmn() -> String {
    process(
        vec![
            start("S"),
            task("T1", COUNT_1),
            xgw("G", "CHOOSE").default_flow("F_DEF"),
            task("T2", COUNT_2),
            task("T3", COUNT_3),
            end("E1"),
            end("E2"),
        ],
        vec![
            f("F1", "S", "T1"),
            f("F2", "T1", "G"),
            fname("Flow_15z7fe3", "YES", "G", "T2"),
            fname("F_DEF", "NO", "G", "T3"),
            f("F3", "T2", "E1"),
            f("F4", "T3", "E2"),
        ],
    )
}

fn inclusive_gateway_bpmn() -> String {
    process(
        vec![
            start("S"),
            task("T1", COUNT_1),
            igw("G", "CHOOSE").default_flow("F_DEF"),
            task("T_YES", COUNT_3),
            task("T_NO", COUNT_3),
            task("T_DEF1", COUNT_1),
            task("T_DEF2", COUNT_3),
            igw("J", ""),
            end("E"),
        ],
        vec![
            f("F1", "S", "T1"),
            f("F2", "T1", "G"),
            fname("F_Y", "YES", "G", "T_YES"),
            fname("F_N", "NO", "G", "T_NO"),
            f("F_DEF", "G", "T_DEF1"),
            f("F3", "T_DEF1", "T_DEF2"),
            f("F4", "T_YES", "J"),
            f("F5", "T_NO", "J"),
            f("F6", "T_DEF2", "J"),
            f("F7", "J", "E"),
        ],
    )
}

fn inclusive_join_fork_bpmn() -> String {
    process(
        vec![
            start("S"),
            task("T0", COUNT_1),
            igw("GA", "GW A"),
            task("TA1", COUNT_1),
            task("TA2", COUNT_1),
            igw("GB", "GW B"),
            task("TB1", COUNT_1),
            task("TB2", COUNT_1),
            task("TB3", COUNT_1),
            igw("J", ""),
            end("E"),
        ],
        vec![
            f("F0", "S", "T0"),
            f("F1", "T0", "GA"),
            fname("FA1", "A", "GA", "TA1"),
            fname("FA2", "B", "GA", "TA2"),
            f("F2", "TA1", "GB"),
            f("F3", "TA2", "GB"),
            fname("FB1", "A", "GB", "TB1"),
            fname("FB2", "B", "GB", "TB2"),
            fname("FB3", "C", "GB", "TB3"),
            f("F4", "TB1", "J"),
            f("F5", "TB2", "J"),
            f("F6", "TB3", "J"),
            f("F7", "J", "E"),
        ],
    )
}

/// One inclusive join-fork stage: a gateway `id` named `name` that joins the
/// flows into it and forks into `n` tasks "Count 1", which all flow into `next`.
fn stage(els: &mut Vec<El>, flows: &mut Vec<Flow>, id: &str, name: &str, n: usize, next: &str) {
    els.push(igw(id, name));
    for i in 0..n {
        let letter = ["A", "B", "C", "D", "E"][i];
        let t = format!("{}_T{}", id, i);
        els.push(task(&t, COUNT_1));
        flows.push(fname(&format!("{}_F{}", id, i), letter, id, &t));
        flows.push(f(&format!("{}_N{}", id, i), &t, next));
    }
}

fn two_task_bpmn() -> String {
    process(
        vec![start("S"), task("T1", COUNT_1), task("T2", COUNT_2), end("E")],
        vec![f("F1", "S", "T1"), f("F2", "T1", "T2"), f("F3", "T2", "E")],
    )
}

#[test]
fn create_and_run() -> std::result::Result<(), Error> {
    let bpmn = ProcessBuilder::parse(&counter_bpmn())?
        .task("Count 1", |_| Default::default())
        .exclusive("equal to 3", |_| Default::default())
        .build()?;
    bpmn.run(())?;
    Ok(())
}

#[test]
fn one_task() -> Result<()> {
    let xml = process(
        vec![start("S"), task("T1", COUNT_1), end("E")],
        vec![f("F1", "S", "T1"), f("F2", "T1", "E")],
    );
    let bpmn = builder(&xml)?.task(COUNT_1, func_cnt(1)).build()?;
    let result = bpmn.run(Counter::default())?;
    assert_eq!(result.get(), 1);
    Ok(())
}

#[test]
fn two_task() -> Result<()> {
    let bpmn = builder(&two_task_bpmn())?
        .task(COUNT_1, func_cnt(1))
        .task(COUNT_2, func_cnt(2))
        .build()?;
    let result = bpmn.run(Counter::default())?;
    assert_eq!(result.get(), 3);
    Ok(())
}

#[test]
fn subprocess() -> Result<()> {
    let xml = process(
        vec![
            start("S"),
            task("T1", COUNT_1),
            sub("SUB", "Sub").sub(
                vec![start("SS"), task("ST", COUNT_2), end("SE")],
                vec![f("SF1", "SS", "ST"), f("SF2", "ST", "SE")],
            ),
            end("E"),
        ],
        vec![f("F1", "S", "T1"), f("F2", "T1", "SUB"), f("F3", "SUB", "E")],
    );
    let bpmn = builder(&xml)?
        .task(COUNT_1, func_cnt(1))
        .task(COUNT_2, func_cnt(2))
        .build()?;
    let result = bpmn.run(Counter::default())?;
    assert_eq!(result.get(), 3);
    Ok(())
}

#[test]
fn subprocess_nested() -> Result<()> {
    let inner = sub("SUB2", "Inner").sub(
        vec![start("IS"), task("IT", COUNT_1), end("IE")],
        vec![f("IF1", "IS", "IT"), f("IF2", "IT", "IE")],
    );
    let outer = sub("SUB1", "Outer").sub(
        vec![start("OS"), task("OT", COUNT_1), inner, end("OE")],
        vec![f("OF1", "OS", "OT"), f("OF2", "OT", "SUB2"), f("OF3", "SUB2", "OE")],
    );
    let xml = process(
        vec![start("S"), task("T1", COUNT_1), outer, end("E")],
        vec![f("F1", "S", "T1"), f("F2", "T1", "SUB1"), f("F3", "SUB1", "E")],
    );
    let bpmn = builder(&xml)?.task(COUNT_1, func_cnt(1)).build()?;
    let result = bpmn.run(Counter::default())?;
    assert_eq!(result.get(), 3);
    Ok(())
}

#[test]
fn subprocess_message_end() -> Result<()> {
    let inner = sub("SUB", "Sub").sub(
        vec![
            start("SS"),
            xgw("SG", "CHOOSE").default_flow("SF_DEF"),
            end("SE_MSG").def("messageEventDefinition"),
            end("SE"),
        ],
        vec![
            f("SF1", "SS", "SG"),
            f("SF_DEF", "SG", "SE_MSG"),
            fname("SF_YES", "YES", "SG", "SE"),
        ],
    );
    let xml = process(
        vec![
            start("S"),
            task("T1", COUNT_1),
            inner,
            el("boundaryEvent", "B", "").on("SUB").def("messageEventDefinition"),
            task("T2", COUNT_2),
            end("E1"),
            end("E2"),
        ],
        vec![
            f("F1", "S", "T1"),
            f("F2", "T1", "SUB"),
            f("F3", "SUB", "E1"),
            f("F4", "B", "T2"),
            f("F5", "T2", "E2"),
        ],
    );
    let bpmn = builder(&xml)?
        .task(COUNT_1, func_cnt(1))
        .task(COUNT_2, func_cnt(2))
        .exclusive("CHOOSE", |_| Default::default())
        .build()?;
    let result = bpmn.run(Counter::default())?;
    assert_eq!(result.get(), 3);
    Ok(())
}

#[test]
fn subprocess_error_message_end() -> Result<()> {
    let inner = sub("SUB", "Sub").sub(
        vec![
            start("SS"),
            task("ST", COUNT_1),
            el("boundaryEvent", "SB", "Overflow").on("ST").def("errorEventDefinition"),
            end("SE_ERR").def("errorEventDefinition"),
            end("SE"),
        ],
        vec![f("SF1", "SS", "ST"), f("SF2", "ST", "SE"), f("SF3", "SB", "SE_ERR")],
    );
    let xml = process(
        vec![
            start("S"),
            inner,
            el("boundaryEvent", "B", "").on("SUB").def("errorEventDefinition"),
            task("T2", COUNT_2),
            task("T3", COUNT_3),
            end("E1"),
            end("E2"),
        ],
        vec![
            f("F1", "S", "SUB"),
            f("F2", "SUB", "E1"),
            f("F3", "B", "T2"),
            f("F4", "T2", "T3"),
            f("F5", "T3", "E2"),
        ],
    );
    let bpmn = builder(&xml)?
        .task(COUNT_1, |_| Task::boundary(Some("Overflow"), Symbol::Error))
        .task(COUNT_2, func_cnt(2))
        .task(COUNT_3, func_cnt(3))
        .build()?;
    let result = bpmn.run(Counter::default())?;
    assert_eq!(result.get(), 5);
    Ok(())
}

#[test]
fn exclusive_gateway_default_path() -> Result<()> {
    let bpmn = builder(&exclusive_gateway_bpmn())?
        .task(COUNT_1, func_cnt(1))
        .task(COUNT_2, func_cnt(2))
        .task(COUNT_3, func_cnt(3))
        .exclusive("CHOOSE", |_| Default::default())
        .build()?;
    let result = bpmn.run(Counter::default())?;
    assert_eq!(result.get(), 4);
    Ok(())
}

#[test]
fn exclusive_gateway() -> Result<()> {
    let bpmn = builder(&exclusive_gateway_bpmn())?
        .task(COUNT_1, func_cnt(1))
        .task(COUNT_2, func_cnt(2))
        .task(COUNT_3, func_cnt(3))
        .exclusive("CHOOSE", |_| Exclusive::flow("YES"))
        .build()?;
    let result = bpmn.run(Counter::default())?;
    assert_eq!(result.get(), 3);
    Ok(())
}

#[test]
fn exclusive_gateway_with_id() -> Result<()> {
    let bpmn = builder(&exclusive_gateway_bpmn())?
        .task(COUNT_1, func_cnt(1))
        .task(COUNT_2, func_cnt(2))
        .task(COUNT_3, func_cnt(3))
        // Navigate by Bpmn diagram Id instead of by Name.
        .exclusive("CHOOSE", |_| Exclusive::flow("Flow_15z7fe3"))
        .build()?;
    let result = bpmn.run(Counter::default())?;
    assert_eq!(result.get(), 3);
    Ok(())
}

#[test]
fn exclusive_gateway_with_gateway_converge() -> Result<()> {
    let xml = process(
        vec![
            start("S"),
            task("T1", COUNT_1),
            xgw("G", "CHOOSE").default_flow("F_NO"),
            task("T2", COUNT_2),
            task("T3", COUNT_3),
            xgw("M", ""),
            task("T4", COUNT_4),
            end("E"),
        ],
        vec![
            f("F1", "S", "T1"),
            f("F2", "T1", "G"),
            fname("F_YES", "YES", "G", "T2"),
            fname("F_NO", "NO", "G", "T3"),
            f("F3", "T2", "M"),
            f("F4", "T3", "M"),
            f("F5", "M", "T4"),
            f("F6", "T4", "E"),
        ],
    );
    let bpmn = builder(&xml)?
        .task(COUNT_1, func_cnt(1))
        .task(COUNT_2, func_cnt(2))
        .task(COUNT_3, func_cnt(3))
        .task(COUNT_4, func_cnt(4))
        .exclusive("CHOOSE", |_| Exclusive::flow("YES"))
        .build()?;
    let result = bpmn.run(Counter::default())?;
    assert_eq!(result.get(), 7);
    Ok(())
}

#[test]
fn exclusive_gateway_with_task_converge() -> Result<()> {
    let xml = process(
        vec![
            start("S"),
            task("T1", COUNT_1),
            xgw("G", "CHOOSE").default_flow("F_NO"),
            task("T2", COUNT_2),
            task("T3", COUNT_3),
            task("T4", COUNT_4),
            end("E"),
        ],
        vec![
            f("F1", "S", "T1"),
            f("F2", "T1", "G"),
            fname("F_YES", "YES", "G", "T2"),
            fname("F_NO", "NO", "G", "T3"),
            f("F3", "T2", "T4"),
            f("F4", "T3", "T4"),
            f("F6", "T4", "E"),
        ],
    );
    let bpmn = builder(&xml)?
        .task(COUNT_1, func_cnt(1))
        .task(COUNT_2, func_cnt(2))
        .task(COUNT_3, func_cnt(3))
        .task(COUNT_4, func_cnt(4))
        .exclusive("CHOOSE", |_| Exclusive::flow("YES"))
        .build()?;
    let result = bpmn.run(Counter::default())?;
    assert_eq!(result.get(), 7);
    Ok(())
}

#[test]
fn inclusive_gateway_default_path() -> Result<()> {
    let bpmn = builder(&inclusive_gateway_bpmn())?
        .task(COUNT_1, func_cnt(1))
        .task(COUNT_2, func_cnt(2))
        .task(COUNT_3, func_cnt(3))
        // Empty vec run default path
        .inclusive("CHOOSE", |_| Default::default())
        .build()?;
    let result = bpmn.run(Counter::default())?;
    assert_eq!(result.get(), 5);
    Ok(())
}

#[test]
fn inclusive_gateway() -> Result<()> {
    let bpmn = builder(&inclusive_gateway_bpmn())?
        .task(COUNT_1, func_cnt(1))
        .task(COUNT_2, func_cnt(2))
        .task(COUNT_3, func_cnt(3))
        .inclusive("CHOOSE", |_| Inclusive::fork(vec!["YES", "NO"]))
        .build()?;
    let result = bpmn.run(Counter::default())?;
    assert_eq!(result.get(), 7);
    Ok(())
}

#[test]
fn inclusive_gateway_same_flow_used_multiple_times() -> Result<()> {
    let bpmn = builder(&inclusive_gateway_bpmn())?
        .task(COUNT_1, func_cnt(1))
        .task(COUNT_2, func_cnt(2))
        .task(COUNT_3, func_cnt(3))
        .inclusive("CHOOSE", |_| Inclusive::fork(vec!["YES", "YES", "NO", "NO"]))
        .build()?;
    let result = bpmn.run(Counter::default())?;
    assert_eq!(result.get(), 7);
    Ok(())
}

#[test]
fn inclusive_gateway_split_end() -> Result<()> {
    let xml = process(
        vec![
            start("S"),
            task("T1", COUNT_1),
            igw("Gateway_0jgakfl", ""),
            task("T2", COUNT_2),
            task("T3", COUNT_3),
            end("E1"),
            end("E2"),
        ],
        vec![
            f("F1", "S", "T1"),
            f("F2", "T1", "Gateway_0jgakfl"),
            fname("F_Y", "YES", "Gateway_0jgakfl", "T2"),
            fname("F_N", "NO", "Gateway_0jgakfl", "T3"),
            f("F3", "T2", "E1"),
            f("F4", "T3", "E2"),
        ],
    );
    let bpmn = builder(&xml)?
        .task(COUNT_1, func_cnt(1))
        .task(COUNT_2, func_cnt(2))
        .task(COUNT_3, func_cnt(3))
        .inclusive("Gateway_0jgakfl", |_| Inclusive::fork(vec!["YES", "NO"]))
        .build()?;
    let result = bpmn.run(Counter::default())?;
    assert_eq!(result.get(), 6);
    Ok(())
}

#[test]
fn inclusive_gateway_no_output() -> Result<()> {
    let xml = process(
        vec![
            start("S"),
            task("TA", "A"),
            igw("Gateway_0qmfmmo", ""),
            task("TB", "B"),
            end("E1"),
            end("E2"),
        ],
        vec![
            f("F1", "S", "TA"),
            f("F2", "TA", "Gateway_0qmfmmo"),
            fname("F3", "X", "Gateway_0qmfmmo", "TB"),
            fname("F4", "Y", "Gateway_0qmfmmo", "E1"),
            f("F5", "TB", "E2"),
        ],
    );
    let bpmn = builder(&xml)?
        .task("A", |_| Task::Default)
        .task("B", |_| Task::Default)
        // Empty vec run default path
        .inclusive("Gateway_0qmfmmo", |_| Default::default())
        .build()?;
    if let Err(error) = bpmn.run(Counter::default()) {
        assert!(
            matches!(error, RuntimeError::Diagram(DiagramError::MissingDefault(_))),
            "Expected missing default"
        );
    } else {
        panic!("Expected an error");
    }

    Ok(())
}

#[test]
fn inclusive_join_fork() -> Result<()> {
    let bpmn = builder(&inclusive_join_fork_bpmn())?
        .task(COUNT_1, func_cnt(1))
        .inclusive("GW A", |_| Inclusive::fork(vec!["A", "B"]))
        .inclusive("GW B", |_| Inclusive::fork(vec!["A", "B", "C"]))
        .build()?;
    let result = bpmn.run(Counter::default())?;
    assert_eq!(result.get(), 6);
    Ok(())
}

#[test]
fn inclusive_join_fork_gwb_one_flow() -> Result<()> {
    let bpmn = builder(&inclusive_join_fork_bpmn())?
        .task(COUNT_1, func_cnt(1))
        .inclusive("GW A", |_| Inclusive::fork(vec!["A", "B"]))
        .inclusive("GW B", |_| Inclusive::flow("A"))
        .build()?;
    let result = bpmn.run(Counter::default())?;
    assert_eq!(result.get(), 4);
    Ok(())
}

#[test]
fn inclusive_join_fork_gateway_verify_sync() -> Result<()> {
    let bpmn = builder(&inclusive_join_fork_bpmn())?
        .task(COUNT_1, func_cnt(1))
        .inclusive("GW A", |_| Inclusive::fork(vec!["A", "B"]))
        .inclusive("GW B", |input| {
            // Make sure that the gateway is only executed once. Do not recommend to mutate data in gateway.
            input.count.fetch_add(1, Relaxed);
            Inclusive::fork(vec!["A", "B", "C"])
        })
        .build()?;
    let result = bpmn.run(Counter::default())?;
    assert_eq!(result.get(), 7);
    Ok(())
}

#[test]
fn parallel_inclusive_join_fork() -> Result<()> {
    let mut els = vec![start("S"), task("T0", COUNT_1), pgw("P"), task("TJA", COUNT_1), task("TJB", COUNT_1)];
    let mut flows = vec![f("F0", "S", "T0"), f("F1", "T0", "P"), f("F2", "P", "A"), f("F3", "P", "B")];
    stage(&mut els, &mut flows, "A", "GW A", 2, "AA");
    stage(&mut els, &mut flows, "AA", "GW AA", 3, "AAA");
    stage(&mut els, &mut flows, "AAA", "GW AAA", 5, "JA");
    stage(&mut els, &mut flows, "B", "GW B", 3, "BB");
    stage(&mut els, &mut flows, "BB", "GW BB", 2, "BBB");
    stage(&mut els, &mut flows, "BBB", "GW BBB", 4, "JB");
    els.push(igw("JA", ""));
    els.push(igw("JB", ""));
    els.push(pgw("PJ"));
    els.push(task("TEND", COUNT_1));
    els.push(end("E"));
    flows.push(f("F4", "JA", "TJA"));
    flows.push(f("F5", "JB", "TJB"));
    flows.push(f("F6", "TJA", "PJ"));
    flows.push(f("F7", "TJB", "PJ"));
    flows.push(f("F8", "PJ", "TEND"));
    flows.push(f("F9", "TEND", "E"));
    let bpmn = builder(&process(els, flows))?
        .task(COUNT_1, func_cnt(1))
        .inclusive("GW A", |_| Inclusive::fork(vec!["A", "B"]))
        .inclusive("GW AA", |_| Inclusive::fork(vec!["A", "B", "C"]))
        .inclusive("GW AAA", |_| Inclusive::fork(vec!["A", "B", "C", "D", "E"]))
        .inclusive("GW B", |_| Inclusive::fork(vec!["A", "B", "C"]))
        .inclusive("GW BB", |_| Inclusive::fork(vec!["A", "B"]))
        .inclusive("GW BBB", |_| Inclusive::fork(vec!["A", "B", "C", "D"]))
        .build()?;
    let result = bpmn.run(Counter::default())?;
    assert_eq!(result.get(), 23);
    Ok(())
}

#[test]
fn inclusive_with_parallel() -> Result<()> {
    let xml = process(
        vec![
            start("S"),
            igw("GA", "GW A"),
            task("TA", COUNT_1),
            pgw("P"),
            task("P1", COUNT_1),
            task("P2", COUNT_1),
            pgw("PJ"),
            task("TA2", COUNT_1),
            task("TB", COUNT_1),
            igw("J", ""),
            end("E"),
        ],
        vec![
            f("F0", "S", "GA"),
            fname("FA", "A", "GA", "TA"),
            fname("FB", "B", "GA", "TB"),
            f("F1", "TA", "P"),
            f("F2", "P", "P1"),
            f("F3", "P", "P2"),
            f("F4", "P1", "PJ"),
            f("F5", "P2", "PJ"),
            f("F6", "PJ", "TA2"),
            f("F7", "TA2", "J"),
            f("F8", "TB", "J"),
            f("F9", "J", "E"),
        ],
    );
    let bpmn = builder(&xml)?
        .task(COUNT_1, func_cnt(1))
        .inclusive("GW A", |_| Inclusive::fork(vec!["A", "B"]))
        .build()?;
    let result = bpmn.run(Counter::default())?;
    assert_eq!(result.get(), 5);
    Ok(())
}

#[test]
fn parallell_gateway() -> Result<()> {
    let xml = process(
        vec![
            start("S"),
            pgw("P"),
            task("T1", COUNT_1),
            task("T2", COUNT_2),
            task("T3", COUNT_3),
            task("T4", COUNT_4),
            pgw("J"),
            end("E"),
        ],
        vec![
            f("F0", "S", "P"),
            f("F1", "P", "T1"),
            f("F2", "P", "T2"),
            f("F3", "P", "T3"),
            f("F4", "P", "T4"),
            f("F5", "T1", "J"),
            f("F6", "T2", "J"),
            f("F7", "T3", "J"),
            f("F8", "T4", "J"),
            f("F9", "J", "E"),
        ],
    );
    let bpmn = builder(&xml)?
        .task(COUNT_1, func_cnt(1))
        .task(COUNT_2, func_cnt(2))
        .task(COUNT_3, func_cnt(3))
        .task(COUNT_4, func_cnt(4))
        .build()?;
    let result = bpmn.run(Counter::default())?;
    assert_eq!(result.get(), 10);
    Ok(())
}

#[test]
fn error_handling() -> Result<()> {
    let xml = process(
        vec![
            start("S"),
            task("T1", COUNT_1),
            el("boundaryEvent", "B1", "").on("T1").def("errorEventDefinition"),
            task("T2", COUNT_2),
            el("boundaryEvent", "B2", "").on("T2").def("errorEventDefinition"),
            task("T3", COUNT_3),
            end("E1"),
            end("E2"),
            end("E3"),
        ],
        vec![
            f("F0", "S", "T1"),
            f("F1", "T1", "E1"),
            f("F2", "B1", "T2"),
            f("F3", "T2", "E2"),
            f("F4", "B2", "T3"),
            f("F5", "T3", "E3"),
        ],
    );
    let bpmn = builder(&xml)?
        .task(COUNT_1, |_| Symbol::Error.into())
        .task(COUNT_2, |_| Symbol::Error.into())
        .task(COUNT_3, func_cnt(3))
        .build()?;
    let result = bpmn.run(Counter::default())?;
    assert_eq!(result.get(), 3);
    Ok(())
}

fn two_boundary_bpmn() -> String {
    process(
        vec![
            start("S"),
            task("T1", COUNT_1),
            el("boundaryEvent", "B1", "Timeout").on("T1").def("timerEventDefinition"),
            el("boundaryEvent", "B2", "Error").on("T1").def("errorEventDefinition"),
            task("T2", COUNT_2),
            task("T3", COUNT_3),
            end("E1"),
            end("E2"),
            end("E3"),
        ],
        vec![
            f("F0", "S", "T1"),
            f("F1", "T1", "E1"),
            f("F2", "B1", "T3"),
            f("F3", "B2", "T2"),
            f("F4", "T2", "E2"),
            f("F5", "T3", "E3"),
        ],
    )
}

#[test]
fn two_boundary_timer_thrown() -> Result<()> {
    let bpmn = builder(&two_boundary_bpmn())?
        .task(COUNT_1, |_| Task::boundary(Some("Timeout"), Symbol::Timer))
        .task(COUNT_2, func_cnt(2))
        .task(COUNT_3, func_cnt(3))
        .build()?;
    let result = bpmn.run(Counter::default())?;
    assert_eq!(result.get(), 3);
    Ok(())
}

#[test]
fn two_boundary_error_thrown() -> Result<()> {
    let bpmn = builder(&two_boundary_bpmn())?
        .task(COUNT_1, |_| Task::boundary(Some("Error"), Symbol::Error))
        .task(COUNT_2, func_cnt(2))
        .task(COUNT_3, func_cnt(3))
        .build()?;
    let result = bpmn.run(Counter::default())?;
    assert_eq!(result.get(), 2);
    Ok(())
}

#[test]
fn multiple_boundaries_same_symbol() -> Result<()> {
    let xml = process(
        vec![
            start("S"),
            task("T1", COUNT_1),
            el("boundaryEvent", "B1", "M1").on("T1").def("messageEventDefinition"),
            el("boundaryEvent", "B2", "M2").on("T1").def("messageEventDefinition"),
            task("T2", COUNT_2),
            task("T3", COUNT_3),
            end("E1"),
            end("E2"),
            end("E3"),
        ],
        vec![
            f("F0", "S", "T1"),
            f("F1", "T1", "E1"),
            f("F2", "B1", "T2"),
            f("F3", "B2", "T3"),
            f("F4", "T2", "E2"),
            f("F5", "T3", "E3"),
        ],
    );
    let bpmn = builder(&xml)?
        .task(COUNT_1, |_| Task::boundary(Some("M2"), Symbol::Message))
        .task(COUNT_2, func_cnt(2))
        .task(COUNT_3, func_cnt(3))
        .build()?;
    let result = bpmn.run(Counter::default())?;
    assert_eq!(result.get(), 3);
    Ok(())
}

#[test]
fn intermediate_event() -> Result<()> {
    let xml = process(
        vec![
            start("S"),
            task("T1", COUNT_1),
            el("intermediateThrowEvent", "TL", "L").def("linkEventDefinition"),
            el("intermediateCatchEvent", "CL", "L").def("linkEventDefinition"),
            task("T2", COUNT_2),
            el("intermediateThrowEvent", "TM", "Send").def("messageEventDefinition"),
            task("T3", COUNT_3),
            end("E"),
        ],
        vec![
            f("F0", "S", "T1"),
            f("F1", "T1", "TL"),
            f("F2", "CL", "T2"),
            f("F3", "T2", "TM"),
            f("F4", "TM", "T3"),
            f("F5", "T3", "E"),
        ],
    );
    let bpmn = builder(&xml)?
        .task(COUNT_1, func_cnt(1))
        .task(COUNT_2, func_cnt(2))
        .task(COUNT_3, func_cnt(3))
        .build()?;
    let result = bpmn.run(Counter::default())?;
    assert_eq!(result.get(), 6);
    Ok(())
}

#[test]
fn two_process_pools() -> Result<()> {
    let xml = diagram(vec![
        (
            vec![start("S"), task("T1", COUNT_1), task("T2", COUNT_2), end("E")],
            vec![f("F1", "S", "T1"), f("F2", "T1", "T2"), f("F3", "T2", "E")],
        ),
        (
            vec![start("S_2"), task("T1_2", COUNT_1), end("E_2")],
            vec![f("F1_2", "S_2", "T1_2"), f("F2_2", "T1_2", "E_2")],
        ),
    ]);
    let bpmn = builder(&xml)?
        .task(COUNT_1, func_cnt(1))
        .task(COUNT_2, func_cnt(2))
        .build()?;
    let result = bpmn.run(Counter::default())?;
    assert_eq!(result.get(), 3);
    Ok(())
}

#[test]
fn subprocess_external_link_fail() -> Result<()> {
    let inner = sub("SUB", "Sub").sub(
        vec![start("SS"), el("intermediateThrowEvent", "TL", "Link 2").def("linkEventDefinition")],
        vec![f("SF1", "SS", "TL")],
    );
    let xml = process(
        vec![
            start("S"),
            inner,
            el("intermediateCatchEvent", "CL", "Link 2").def("linkEventDefinition"),
            end("E1"),
            end("E2"),
        ],
        vec![f("F1", "S", "SUB"), f("F2", "SUB", "E1"), f("F3", "CL", "E2")],
    );
    let bpmn = builder(&xml)?.build()?;
    if let Err(error) = bpmn.run(Counter::default()) {
        assert!(
            matches!(&error, RuntimeError::Diagram(DiagramError::MissingIntermediateCatchEvent(symbol, name)) if symbol == "Link" && name == "Link 2"),
            "Expected Link Symbol with name Link 2"
        );
    } else {
        panic!("Expected an error");
    }
    Ok(())
}

#[test]
fn showcase() -> Result<()> {
    let xml = process(
        vec![
            start("S"),
            task("T1", COUNT_1),
            igw("RA", "RUN ALL"),
            task("TO", "Timeout 1"),
            el("boundaryEvent", "BT", "").on("TO").def("timerEventDefinition"),
            task("TT", COUNT_2),
            igw("RUNA", "RUN A"),
            task("RA1", COUNT_1),
            task("RA2", COUNT_2),
            igw("J2", ""),
            igw("J1", ""),
            xgw("RD", "RUN DEFAULT").default_flow("FD"),
            pgw("P"),
            task("P1", COUNT_2),
            task("P1B", COUNT_2),
            task("P2", COUNT_2),
            task("P2B", COUNT_2),
            task("P3", COUNT_2),
            task("P3B", COUNT_2),
            pgw("PJ"),
            end("E1"),
            end("E2"),
        ],
        vec![
            f("F0", "S", "T1"),
            f("F1", "T1", "RA"),
            fname("FRA_A", "A", "RA", "TO"),
            fname("FRA_B", "B", "RA", "RUNA"),
            f("F2", "TO", "J1"),
            f("F3", "BT", "TT"),
            f("F4", "TT", "J1"),
            fname("FA_A", "A", "RUNA", "RA1"),
            fname("FA_B", "B", "RUNA", "RA2"),
            f("F5", "RA1", "J2"),
            f("F6", "RA2", "J2"),
            f("F7", "J2", "J1"),
            f("F8", "J1", "RD"),
            f("FD", "RD", "P"),
            fname("FX", "X", "RD", "E1"),
            f("F9", "P", "P1"),
            f("F10", "P", "P2"),
            f("F11", "P", "P3"),
            f("F12", "P1", "P1B"),
            f("F13", "P2", "P2B"),
            f("F14", "P3", "P3B"),
            f("F15", "P1B", "PJ"),
            f("F16", "P2B", "PJ"),
            f("F17", "P3B", "PJ"),
            f("F18", "PJ", "E2"),
        ],
    );
    let bpmn = builder(&xml)?
        .task(COUNT_1, func_cnt(1))
        .task(COUNT_2, func_cnt(2))
        .task("Timeout 1", |_| Symbol::Timer.into())
        .inclusive("RUN ALL", |_| Inclusive::fork(vec!["A", "B"]))
        .inclusive("RUN A", |_| Inclusive::flow("A"))
        .exclusive("RUN DEFAULT", |_| Default::default())
        .build()?;
    let result = bpmn.run(Counter::default())?;
    assert_eq!(result.get(), 16);
    Ok(())
}

#[test]
fn task_fork() -> Result<()> {
    let xml = process(
        vec![
            start("S"),
            task("T0", COUNT_1),
            task("T1", COUNT_1),
            task("T2", COUNT_1),
            task("T3", COUNT_1),
            task("T4", COUNT_1),
            pgw("J"),
            task("T5", COUNT_1),
            end("E"),
        ],
        vec![
            f("F0", "S", "T0"),
            f("F1", "T0", "T1"),
            f("F2", "T0", "T2"),
            f("F3", "T0", "T3"),
            f("F4", "T0", "T4"),
            f("F5", "T1", "J"),
            f("F6", "T2", "J"),
            f("F7", "T3", "J"),
            f("F8", "T4", "J"),
            f("F9", "J", "T5"),
            f("F10", "T5", "E"),
        ],
    );
    let bpmn = builder(&xml)?.task(COUNT_1, func_cnt(1)).build()?;
    let result = bpmn.run(Counter::default())?;
    assert_eq!(result.get(), 6);
    Ok(())
}

#[test]
fn fork_explosion() -> Result<()> {
    let mut els = vec![start("S"), task("C0", COUNT_1), task("C1", COUNT_1)];
    let mut flows = vec![f("F0", "S", "C0"), f("F1", "C0", "C1"), f("F2", "C1", "X1")];
    for level in 1..=5 {
        let id = format!("X{}", level);
        els.push(task(&id, COUNT_1));
        let next = if level < 5 { format!("X{}", level + 1) } else { "E".to_string() };
        flows.push(f(&format!("{}_a", id), &id, &next));
        flows.push(f(&format!("{}_b", id), &id, &next));
    }
    els.push(end("E"));
    let bpmn = builder(&process(els, flows))?.task(COUNT_1, func_cnt(1)).build()?;
    let result = bpmn.run(Counter::default())?;
    assert_eq!(result.get(), 33);
    Ok(())
}

#[test]
fn process_end_with_symbol() -> Result<()> {
    let xml = process(
        vec![start("S"), end("E").def("messageEventDefinition")],
        vec![f("F0", "S", "E")],
    );
    let bpmn = builder(&xml)?.build()?;
    let result = bpmn.run(Counter::default())?;
    assert_eq!(result.get(), 0);
    Ok(())
}

#[test]
fn inclusive_gateway_not_all_joined() -> Result<()> {
    let xml = process(
        vec![
            start("S"),
            igw("RA", "RUN ALL"),
            task("TA", COUNT_1),
            xgw("RC", "RUN C"),
            task("TC", COUNT_1),
            igw("J", ""),
            task("TJ", COUNT_1),
            end("E1"),
            end("E2"),
        ],
        vec![
            f("F0", "S", "RA"),
            fname("FA", "A", "RA", "TA"),
            fname("FB", "B", "RA", "RC"),
            f("F1", "TA", "J"),
            fname("FC", "C", "RC", "TC"),
            fname("FD", "D", "RC", "J"),
            f("F2", "TC", "E1"),
            f("F3", "J", "TJ"),
            f("F4", "TJ", "E2"),
        ],
    );
    let bpmn = builder(&xml)?
        .task(COUNT_1, func_cnt(1))
        .inclusive("RUN ALL", |_| Inclusive::fork(vec!["A", "B"]))
        .exclusive("RUN C", |_| Exclusive::flow("C"))
        .build()?;
    let result = bpmn.run(Counter::default())?;
    assert_eq!(result.get(), 3);
    Ok(())
}

fn parallel_not_all_joined_bpmn(inverse: bool) -> String {
    let mut flows = vec![f("F0", "S", "P")];
    let branches = if inverse { ["B3", "B1", "B2"] } else { ["B1", "B2", "B3"] };
    for (i, b) in branches.iter().enumerate() {
        flows.push(f(&format!("FP{}", i), "P", b));
    }
    flows.push(f("F1", "B1", "J"));
    flows.push(f("F2", "B2", "J"));
    flows.push(f("F3", "B3", "E1"));
    flows.push(f("F4", "J", "TJ"));
    flows.push(f("F5", "TJ", "E2"));
    process(
        vec![
            start("S"),
            pgw("P"),
            task("B1", COUNT_1),
            task("B2", COUNT_1),
            task("B3", COUNT_1),
            pgw("J"),
            task("TJ", COUNT_1),
            end("E1"),
            end("E2"),
        ],
        flows,
    )
}

#[test]
fn parallel_gateway_not_all_joined() -> Result<()> {
    let bpmn = builder(&parallel_not_all_joined_bpmn(false))?.task(COUNT_1, func_cnt(1)).build()?;
    let result = bpmn.run(Counter::default())?;
    assert_eq!(result.get(), 4);
    Ok(())
}

#[test]
fn parallel_gateway_not_all_joined_inverse() -> Result<()> {
    let bpmn = builder(&parallel_not_all_joined_bpmn(true))?.task(COUNT_1, func_cnt(1)).build()?;
    let result = bpmn.run(Counter::default())?;
    assert_eq!(result.get(), 4);
    Ok(())
}

/// A parallel fork into `n` tasks "Count 1" that join again: from `from` to `to`.
fn parallel_block(els: &mut Vec<El>, flows: &mut Vec<Flow>, id: &str, n: usize, from: &str, to: &str) {
    let fork = format!("{}_fork", id);
    let join = format!("{}_join", id);
    els.push(pgw(&fork));
    els.push(pgw(&join));
    flows.push(f(&format!("{}_in", id), from, &fork));
    for i in 0..n {
        let t = format!("{}_T{}", id, i);
        els.push(task(&t, COUNT_1));
        flows.push(f(&format!("{}_F{}", id, i), &fork, &t));
        flows.push(f(&format!("{}_J{}", id, i), &t, &join));
    }
    flows.push(f(&format!("{}_out", id), &join, to));
}

#[test]
fn parallel_multi() -> Result<()> {
    let mut els = vec![start("S"), task("T0", COUNT_1), task("T1", COUNT_1), end("E")];
    let mut flows = vec![f("F0", "S", "T0")];
    parallel_block(&mut els, &mut flows, "PA", 3, "T0", "T1");
    parallel_block(&mut els, &mut flows, "PB", 2, "T1", "E");
    let bpmn = builder(&process(els, flows))?.task(COUNT_1, func_cnt(1)).build()?;
    let result = bpmn.run(Counter::default())?;
    assert_eq!(result.get(), 7);
    Ok(())
}

#[test]
fn parallel_join_fork() -> Result<()> {
    let xml = process(
        vec![
            start("S"),
            task("T0", COUNT_1),
            pgw("P"),
            task("A1", COUNT_1),
            task("A2", COUNT_1),
            pgw("JF"),
            task("B1", COUNT_1),
            task("B2", COUNT_1),
            task("B3", COUNT_1),
            pgw("J"),
            end("E"),
        ],
        vec![
            f("F0", "S", "T0"),
            f("F1", "T0", "P"),
            f("F2", "P", "A1"),
            f("F3", "P", "A2"),
            f("F4", "A1", "JF"),
            f("F5", "A2", "JF"),
            f("F6", "JF", "B1"),
            f("F7", "JF", "B2"),
            f("F8", "JF", "B3"),
            f("F9", "B1", "J"),
            f("F10", "B2", "J"),
            f("F11", "B3", "J"),
            f("F12", "J", "E"),
        ],
    );
    let bpmn = builder(&xml)?.task(COUNT_1, func_cnt(1)).build()?;
    let result = bpmn.run(Counter::default())?;
    assert_eq!(result.get(), 6);
    Ok(())
}

/// A parallel fork into `n` tasks that join and fork again into `m` tasks that join.
fn parallel_join_fork_block(els: &mut Vec<El>, flows: &mut Vec<Flow>, id: &str, n: usize, m: usize, from: &str, to: &str) {
    let fork = format!("{}_fork", id);
    let jf = format!("{}_jf", id);
    let join = format!("{}_join", id);
    els.push(pgw(&fork));
    els.push(pgw(&jf));
    els.push(pgw(&join));
    flows.push(f(&format!("{}_in", id), from, &fork));
    for i in 0..n {
        let t = format!("{}_A{}", id, i);
        els.push(task(&t, COUNT_1));
        flows.push(f(&format!("{}_FA{}", id, i), &fork, &t));
        flows.push(f(&format!("{}_JA{}", id, i), &t, &jf));
    }
    for i in 0..m {
        let t = format!("{}_B{}", id, i);
        els.push(task(&t, COUNT_1));
        flows.push(f(&format!("{}_FB{}", id, i), &jf, &t));
        flows.push(f(&format!("{}_JB{}", id, i), &t, &join));
    }
    flows.push(f(&format!("{}_out", id), &join, to));
}

#[test]
fn parallel_parallel_join_fork() -> Result<()> {
    let mut els = vec![
        start("S"),
        task("T0", COUNT_1),
        pgw("P"),
        pgw("PJ"),
        task("T1", COUNT_1),
        task("T2", COUNT_1),
        task("T3", COUNT_1),
        task("T4", COUNT_1),
        end("E"),
    ];
    let mut flows = vec![
        f("F0", "S", "T0"),
        f("F1", "T0", "P"),
        f("F2", "PJ", "T1"),
        f("F3", "T1", "T2"),
        f("F4", "T2", "T3"),
        f("F5", "T3", "T4"),
        f("F6", "T4", "E"),
    ];
    parallel_join_fork_block(&mut els, &mut flows, "A", 4, 5, "P", "PJ");
    parallel_join_fork_block(&mut els, &mut flows, "B", 3, 6, "P", "PJ");
    let bpmn = builder(&process(els, flows))?.task(COUNT_1, func_cnt(1)).build()?;
    let result = bpmn.run(Counter::default())?;
    assert_eq!(result.get(), 23);
    Ok(())
}

#[test]
fn parallel_one_in_and_out() -> Result<()> {
    let xml = process(
        vec![start("S"), pgw("P1"), task("T1", COUNT_1), pgw("P2"), end("E")],
        vec![f("F0", "S", "P1"), f("F1", "P1", "T1"), f("F2", "T1", "P2"), f("F3", "P2", "E")],
    );
    let bpmn = builder(&xml)?.task(COUNT_1, func_cnt(1)).build()?;
    let result = bpmn.run(Counter::default())?;
    assert_eq!(result.get(), 1);
    Ok(())
}

#[test]
fn conditional_sequence_flows() -> Result<()> {
    let xml = r#"<?xml version="1.0" encoding="UTF-8"?>
<bpmn:definitions xmlns:bpmn="http://www.omg.org/spec/BPMN/20100524/MODEL" id="Definitions_1">
  <bpmn:process id="Process_1" isExecutable="true">
    <bpmn:startEvent id="S">
      <bpmn:outgoing>F1</bpmn:outgoing>
    </bpmn:startEvent>
    <bpmn:endEvent id="E">
      <bpmn:incoming>F1</bpmn:incoming>
    </bpmn:endEvent>
    <bpmn:sequenceFlow id="F1" name="IF" sourceRef="S" targetRef="E">
      <bpmn:conditionExpression>x &gt; 1</bpmn:conditionExpression>
    </bpmn:sequenceFlow>
  </bpmn:process>
</bpmn:definitions>
"#;
    let failed = ProcessBuilder::<Counter>::parse(xml).is_err();
    assert!(failed, "Expected an error");
    Ok(())
}

#[test]
fn exclusive_gateway_merging_branching() -> Result<()> {
    let xml = process(
        vec![
            start("S"),
            xgw("BR", "BRANCHING"),
            task("T1", COUNT_1),
            xgw("MB", "MERGE AND BRANCH"),
            task("T2", COUNT_2),
            end("E1"),
            end("E2"),
        ],
        vec![
            f("F0", "S", "BR"),
            fname("FA", "A", "BR", "T1"),
            fname("FB", "B", "BR", "MB"),
            f("F1", "T1", "MB"),
            fname("FMA", "A", "MB", "E1"),
            fname("FMB", "B", "MB", "T2"),
            f("F2", "T2", "E2"),
        ],
    );
    let bpmn = builder(&xml)?
        .task(COUNT_1, func_cnt(1))
        .task(COUNT_2, func_cnt(2))
        .exclusive("BRANCHING", |_| Exclusive::flow("A"))
        .exclusive("MERGE AND BRANCH", |_| Exclusive::flow("B"))
        .build()?;
    let result = bpmn.run(Counter::default())?;
    assert_eq!(result.get(), 3);
    Ok(())
}

#[test]
fn event_gateway() -> Result<()> {
    let xml = process(
        vec![
            start("S"),
            el("eventBasedGateway", "JG", "JUNIOR GATEKEEPER"),
            el("receiveTask", "RT", "Investigate"),
            el("intermediateCatchEvent", "CT1", "Sleeping").def("timerEventDefinition"),
            task("T1", COUNT_1),
            el("eventBasedGateway", "SG", "SENIOR GATEKEEPER"),
            el("intermediateCatchEvent", "CT2", "Sleeping").def("timerEventDefinition"),
            el("intermediateCatchEvent", "CM", "Wake up").def("messageEventDefinition"),
            task("T2", COUNT_2),
            task("T3", COUNT_3),
            end("E1"),
            end("E2"),
            end("E3"),
        ],
        vec![
            f("F0", "S", "JG"),
            f("F1", "JG", "RT"),
            f("F2", "JG", "CT1"),
            f("F3", "CT1", "T1"),
            f("F4", "T1", "E1"),
            f("F5", "RT", "SG"),
            f("F6", "SG", "CT2"),
            f("F7", "SG", "CM"),
            f("F8", "CT2", "T2"),
            f("F9", "CM", "T3"),
            f("F10", "T2", "E2"),
            f("F11", "T3", "E3"),
        ],
    );
    let bpmn = builder(&xml)?
        .task(COUNT_1, func_cnt(1))
        .task(COUNT_2, func_cnt(2))
        .task(COUNT_3, func_cnt(3))
        .task("Investigate", |_| Task::Default)
        .event_based("JUNIOR GATEKEEPER", |_| IntermediateEvent::throw("Investigate", Symbol::Message))
        .event_based("SENIOR GATEKEEPER", |_| IntermediateEvent::throw("Sleeping", Symbol::Timer))
        .build()?;
    let result = bpmn.run(Counter::default())?;
    assert_eq!(result.get(), 2);
    Ok(())
}

#[test]
fn single_flow() -> Result<()> {
    let mut els = vec![start("S"), task("T0", COUNT_1)];
    let mut flows = vec![f("F0", "S", "T0"), f("F1", "T0", "GA")];
    let gateways = [("GA", "GW A", 3usize), ("GB", "GW B", 4), ("GC", "GW C", 5), ("GD", "GW D", 5)];
    for (i, (id, name, n)) in gateways.iter().enumerate() {
        els.push(xgw(id, name));
        let next = if i + 1 < gateways.len() { gateways[i + 1].0.to_string() } else { "E".to_string() };
        let mut previous = id.to_string();
        for k in 0..*n {
            let t = format!("{}_T{}", id, k);
            els.push(task(&t, COUNT_1));
            if k == 0 {
                flows.push(fname(&format!("{}_A", id), "A", id, &t));
            } else {
                flows.push(f(&format!("{}_F{}", id, k), &previous, &t));
            }
            previous = t;
        }
        flows.push(f(&format!("{}_N", id), &previous, &next));
        let other_end = format!("{}_END", id);
        els.push(end(&other_end));
        flows.push(fname(&format!("{}_B", id), "B", id, &other_end));
    }
    els.push(end("E"));
    let bpmn = builder(&process(els, flows))?
        .task(COUNT_1, func_cnt(1))
        .exclusive("GW A", |_| Exclusive::flow("A"))
        .exclusive("GW B", |_| Exclusive::flow("A"))
        .exclusive("GW C", |_| Exclusive::flow("A"))
        .exclusive("GW D", |_| Exclusive::flow("A"))
        .build()?;
    let result = bpmn.run(Counter::default())?;
    assert_eq!(result.get(), 18);
    Ok(())
}

#[test]
fn terminate_event() -> Result<()> {
    let xml = process(
        vec![
            start("S"),
            task("T0", COUNT_1),
            pgw("P"),
            task("A", COUNT_1),
            xgw("G", "Terminate?"),
            end("ET").def("terminateEventDefinition"),
            end("EN"),
            task("B1", COUNT_1),
            task("B2", COUNT_1),
            end("EB"),
        ],
        vec![
            f("F0", "S", "T0"),
            f("F1", "T0", "P"),
            f("F2", "P", "A"),
            f("F3", "P", "B1"),
            f("F4", "A", "G"),
            fname("F5", "YES", "G", "ET"),
            fname("F6", "NO", "G", "EN"),
            f("F7", "B1", "B2"),
            f("F8", "B2", "EB"),
        ],
    );
    let bpmn = builder(&xml)?
        .task(COUNT_1, func_cnt(1))
        .exclusive("Terminate?", |_| Exclusive::flow("YES"))
        .build()?;
    let result = bpmn.run(Counter::default())?;

    // NOTE 2 or 3 is OK result. The order in concurrent scenarios might differ.
    assert!(matches!(result.get(), 2 | 3));
    Ok(())
}

#[test]
fn terminate_event_sub_process() -> Result<()> {
    let inner = sub("SUB", "Sub").sub(
        vec![
            start("SS"),
            pgw("P"),
            task("A", COUNT_1),
            xgw("G", "Terminate?"),
            end("ET").def("terminateEventDefinition"),
            end("EN"),
            task("B1", COUNT_1),
            task("B2", COUNT_1),
            end("EB"),
        ],
        vec![
            f("SF0", "SS", "P"),
            f("SF2", "P", "A"),
            f("SF3", "P", "B1"),
            f("SF4", "A", "G"),
            fname("SF5", "YES", "G", "ET"),
            fname("SF6", "NO", "G", "EN"),
            f("SF7", "B1", "B2"),
            f("SF8", "B2", "EB"),
        ],
    );
    let xml = process(
        vec![start("S"), task("T0", COUNT_1), task("T1", COUNT_1), inner, task("T2", COUNT_1), end("E")],
        vec![f("F0", "S", "T0"), f("F1", "T0", "T1"), f("F2", "T1", "SUB"), f("F3", "SUB", "T2"), f("F4", "T2", "E")],
    );
    let bpmn = builder(&xml)?
        .task(COUNT_1, func_cnt(1))
        .exclusive("Terminate?", |_| Exclusive::flow("YES"))
        .build()?;
    let result = bpmn.run(Counter::default())?;

    // NOTE 4 or 5 is OK result. The order in concurrent scenarios might differ.
    assert!(matches!(result.get(), 4 | 5));
    Ok(())
}

#[test]
fn startevent_not_first() -> Result<()> {
    // StartEvent out of order in XML file
    let xml = process(
        vec![
            task("T1", COUNT_1),
            task("T2", COUNT_1),
            end("E"),
            task("T3", COUNT_1),
            task("T4", COUNT_1),
            start("S"),
        ],
        vec![f("F0", "S", "T1"), f("F1", "T1", "T2"), f("F2", "T2", "T3"), f("F3", "T3", "T4"), f("F4", "T4", "E")],
    );
    let bpmn = builder(&xml)?.task(COUNT_1, func_cnt(1)).build()?;
    let result = bpmn.run(Counter::default())?;
    assert_eq!(result.get(), 4);
    Ok(())
}

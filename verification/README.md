# snurr

A lightweight workflow engine that runs the process flow of a BPMN 2.0
diagram, written in Verus: the reader, the builder and the engine carry
contracts that Verus proves.

Register a function for every task and branching gateway of the diagram, build
the process and run it with your own data. `run` gives the data back
unchanged when it succeeds, and a process whose start event reaches an end
event through sequence flows, events and gateways that need no function is
proved to run to completion. A run goes as `spec_exec` (`src/runner.rs`) says
over the answers the registered functions gave: rounds of tokens, each token
walking the diagram as `spec_walk` says (a subprocess runs in turn as
`spec_exec` says), joins, forks, and the end event that closes the run; the
answers decide the run (`lemma_answers_decide_run`). A
parsed diagram is what handling the XML tokens in turn gives, as
`spec_parse_run` (`src/builder.rs`) says, and a built process has a
registered function behind every task and branching gateway.

```rust
use snurr::{Exclusive, ProcessBuilder, Task};
use std::sync::atomic::{AtomicU32, Ordering::Relaxed};

#[derive(Debug, Default)]
struct Counter(AtomicU32);

fn run(bpmn: &str) -> Result<(), snurr::error::Error> {
    let process = ProcessBuilder::<Counter>::parse(bpmn)?
        .task("Count 1", |input| {
            input.0.fetch_add(1, Relaxed);
            Task::Default
        })
        .exclusive("equal to 3", |input| match input.0.load(Relaxed) {
            3 => Exclusive::flow("YES"),
            _ => Exclusive::flow("NO"),
        })
        .build()?;
    let result = process.run(Counter::default())?;
    println!("{result:?}");
    Ok(())
}
```

## Layout

- `src/bpmn.rs`, `src/diagram.rs`: the element types and the diagram, with
  what makes a diagram consistent (`Diagram::wf`).
- `src/raw.rs`, `src/construction.rs`, `src/builder.rs`, `src/reader.rs`:
  from XML tokens to elements, processes and the diagram. `src/xml.rs` holds
  the calls into quick-xml.
- `src/func_map.rs`, `src/handler.rs`, `src/process.rs`: registering user
  functions and building a runnable process.
- `src/tokens.rs`, `src/engine.rs`, `src/runner.rs`, `src/flows.rs`: running a
  process: token bookkeeping, the decision taken at each element, and the run.
- `src/scaffold.rs`: code that registers a default function for every task
  and gateway of a diagram.
- `app/`: reading a BPMN file, writing the scaffold to a file, and showing
  errors through `Display`.

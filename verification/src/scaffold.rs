//! Rust code that registers a function for every task and branching gateway
//! of a diagram: a starting point for the user's own code.
use vstd::prelude::*;
use crate::bpmn::{Bpmn, BpmnType, ActivityType, GatewayType, Symbol, spec_name_or_id, spec_symbol_name, name_or_id,
    spec_handler_type};
use crate::diagram::{Diagram, ProcessData, BoundaryKey, opt_view};
use crate::construction::views;
use crate::text::{owned, join3, join4, join5, str_eq};

verus! {

/// A boundary as the scaffold lists it: its name and symbol.
pub open spec fn item_view(x: (Option<String>, Symbol)) -> (Option<Seq<char>>, Symbol) {
    (opt_view(x.0), x.1)
}

/// The boundaries attached to the activity with index `id`, each name and
/// symbol once, in the order they were first registered.
pub open spec fn spec_boundary_keys(es: Seq<(BoundaryKey, usize)>, id: usize) -> Seq<(Option<Seq<char>>, Symbol)>
    decreases es.len(),
{
    if es.len() == 0 {
        Seq::empty()
    } else {
        let rest = spec_boundary_keys(es.drop_last(), id);
        let k = es.last().0;
        let item = (opt_view(k.name), k.symbol);
        if k.id == id && !rest.contains(item) {
            rest.push(item)
        } else {
            rest
        }
    }
}

/// How an optional name is debug-printed.
pub open spec fn spec_opt_debug(n: Option<Seq<char>>) -> Seq<char> {
    match n {
        Some(s) => "Some(\""@ + s + "\")"@,
        None => "None"@,
    }
}

/// How a boundary is debug-printed: `(name, symbol)`.
pub open spec fn spec_item_text(it: (Option<Seq<char>>, Symbol)) -> Seq<char> {
    "("@ + spec_opt_debug(it.0) + ", "@ + spec_symbol_name(it.1) + ")"@
}

/// The boundaries, separated by ", ".
pub open spec fn spec_items_text(items: Seq<(Option<Seq<char>>, Symbol)>) -> Seq<char>
    decreases items.len(),
{
    if items.len() == 0 {
        Seq::empty()
    } else if items.len() == 1 {
        spec_item_text(items[0])
    } else {
        spec_items_text(items.drop_last()) + ", "@ + spec_item_text(items.last())
    }
}

/// The code for one task: a comment with its boundaries, if it has any, and
/// the registration of its function.
pub open spec fn spec_task_code(n: Seq<char>, items: Seq<(Option<Seq<char>>, Symbol)>) -> Seq<char> {
    (if items.len() > 0 {
        "\n        // \""@ + n + "\" boundary symbols: ["@ + spec_items_text(items) + "]"@
    } else {
        Seq::empty()
    }) + "\n        .task(\""@ + n + "\", |input| Default::default())"@
}

/// The code so far and the task names already written; a task of any icon whose
/// name (or id) was not written yet adds its code.
pub open spec fn spec_task_step(acc: (Seq<char>, Seq<Seq<char>>), pd: ProcessData, b: Bpmn) -> (Seq<char>, Seq<Seq<char>>) {
    match b {
        Bpmn::Activity(a) => {
            let n = spec_name_or_id(a.name, a.id);
            if a.activity_type != ActivityType::SubProcess && !acc.1.contains(n) {
                (acc.0 + spec_task_code(n, spec_boundary_keys(pd.events.boundaries@, a.id.local_id)), acc.1.push(n))
            } else {
                acc
            }
        },
        _ => acc,
    }
}

/// The task code of the first `i` elements of a process.
pub open spec fn spec_tasks_in(acc: (Seq<char>, Seq<Seq<char>>), pd: ProcessData, i: nat) -> (Seq<char>, Seq<Seq<char>>)
    decreases i,
{
    if i == 0 {
        acc
    } else {
        spec_task_step(spec_tasks_in(acc, pd, (i - 1) as nat), pd, pd.data@[i - 1])
    }
}

/// The task code of the first `p` processes.
pub open spec fn spec_tasks(ps: Seq<ProcessData>, p: nat) -> (Seq<char>, Seq<Seq<char>>)
    decreases p,
{
    if p == 0 {
        (Seq::empty(), Seq::empty())
    } else {
        spec_tasks_in(spec_tasks(ps, (p - 1) as nat), ps[p - 1], ps[p - 1].data@.len())
    }
}

/// The names of the outputs that are named sequence flows, in order.
pub open spec fn spec_flow_names(pd: ProcessData, outputs: Seq<usize>) -> Seq<Seq<char>>
    decreases outputs.len(),
{
    if outputs.len() == 0 {
        Seq::empty()
    } else {
        let rest = spec_flow_names(pd, outputs.drop_last());
        let idx = outputs.last();
        if idx < pd.data@.len() && pd.data@[idx as int] is SequenceFlow && pd.data@[idx as int]->SequenceFlow_name is Some {
            rest.push(pd.data@[idx as int]->SequenceFlow_name->0@)
        } else {
            rest
        }
    }
}

/// The names, separated by ", ".
pub open spec fn spec_names_text(names: Seq<Seq<char>>) -> Seq<char>
    decreases names.len(),
{
    if names.len() == 0 {
        Seq::empty()
    } else if names.len() == 1 {
        names[0]
    } else {
        spec_names_text(names.drop_last()) + ", "@ + names.last()
    }
}

/// The registration of a branching gateway's function.
pub open spec fn spec_gateway_call(t: GatewayType, n: Seq<char>) -> Seq<char> {
    match t {
        GatewayType::Exclusive => "\n        .exclusive(\""@ + n + "\", |input| Default::default())"@,
        GatewayType::Inclusive => "\n        .inclusive(\""@ + n + "\", |input| Default::default())"@,
        _ => "\n        .event_based(\""@ + n + "\", |input| // Implement)"@,
    }
}

/// The builder method that registers a function of each kind.
pub open spec fn spec_register_method(t: BpmnType) -> Seq<char> {
    match t {
        BpmnType::Task => "task"@,
        BpmnType::Exclusive => "exclusive"@,
        BpmnType::Inclusive => "inclusive"@,
        BpmnType::EventBased => "event_based"@,
    }
}

/// The registration written for a branching gateway calls the builder method
/// of the kind of function the gateway needs, with the gateway's name.
pub proof fn lemma_gateway_call_method(t: GatewayType, n: Seq<char>)
    requires
        spec_handler_type(t) is Some,
    ensures
        exists|tail: Seq<char>| spec_gateway_call(t, n)
            == "\n        ."@ + spec_register_method(spec_handler_type(t)->0) + "(\""@ + n + "\""@ + tail,
{
    reveal_strlit("\n        .");
    reveal_strlit("(\"");
    reveal_strlit("\"");
    match t {
        GatewayType::Exclusive => {
            reveal_strlit("\n        .exclusive(\"");
            reveal_strlit("exclusive");
            let lit = "\", |input| Default::default())"@;
            reveal_strlit("\", |input| Default::default())");
            let tail = lit.subrange(1, lit.len() as int);
            assert("\n        .exclusive(\""@ =~= "\n        ."@ + "exclusive"@ + "(\""@);
            assert(lit =~= "\""@ + tail);
            assert(spec_gateway_call(t, n) =~= "\n        ."@ + "exclusive"@ + "(\""@ + n + "\""@ + tail);
            assert(spec_register_method(spec_handler_type(t)->0) == "exclusive"@);
            assert(spec_gateway_call(t, n) == "\n        ."@ + spec_register_method(spec_handler_type(t)->0) + "(\""@
                + n + "\""@ + tail);
        },
        GatewayType::Inclusive => {
            reveal_strlit("\n        .inclusive(\"");
            reveal_strlit("inclusive");
            let lit = "\", |input| Default::default())"@;
            reveal_strlit("\", |input| Default::default())");
            let tail = lit.subrange(1, lit.len() as int);
            assert("\n        .inclusive(\""@ =~= "\n        ."@ + "inclusive"@ + "(\""@);
            assert(lit =~= "\""@ + tail);
            assert(spec_gateway_call(t, n) =~= "\n        ."@ + "inclusive"@ + "(\""@ + n + "\""@ + tail);
            assert(spec_register_method(spec_handler_type(t)->0) == "inclusive"@);
            assert(spec_gateway_call(t, n) == "\n        ."@ + spec_register_method(spec_handler_type(t)->0) + "(\""@
                + n + "\""@ + tail);
        },
        GatewayType::EventBased => {
            reveal_strlit("\n        .event_based(\"");
            reveal_strlit("event_based");
            let lit = "\", |input| // Implement)"@;
            reveal_strlit("\", |input| // Implement)");
            let tail = lit.subrange(1, lit.len() as int);
            assert("\n        .event_based(\""@ =~= "\n        ."@ + "event_based"@ + "(\""@);
            assert(lit =~= "\""@ + tail);
            assert(spec_gateway_call(t, n) =~= "\n        ."@ + "event_based"@ + "(\""@ + n + "\""@ + tail);
            assert(spec_register_method(spec_handler_type(t)->0) == "event_based"@);
            assert(spec_gateway_call(t, n) == "\n        ."@ + spec_register_method(spec_handler_type(t)->0) + "(\""@
                + n + "\""@ + tail);
        },
        GatewayType::Parallel => {},
    }
}

/// The code so far and the gateway names already written; an exclusive,
/// inclusive or event-based gateway with more than one output whose name (or
/// id) was not written yet adds a comment with its output names and its registration.
pub open spec fn spec_gateway_step(acc: (Seq<char>, Seq<Seq<char>>), pd: ProcessData, b: Bpmn) -> (Seq<char>, Seq<Seq<char>>) {
    match b {
        Bpmn::Gateway(g) => {
            let n = spec_name_or_id(g.name, g.id);
            if g.gateway_type != GatewayType::Parallel && g.outputs.local_ids@.len() > 1 && !acc.1.contains(n) {
                (acc.0 + "\n        // outputs: "@ + spec_names_text(spec_flow_names(pd, g.outputs.local_ids@))
                    + spec_gateway_call(g.gateway_type, n), acc.1.push(n))
            } else {
                acc
            }
        },
        _ => acc,
    }
}

/// The gateway code of the first `i` elements of a process.
pub open spec fn spec_gateways_in(acc: (Seq<char>, Seq<Seq<char>>), pd: ProcessData, i: nat) -> (Seq<char>, Seq<Seq<char>>)
    decreases i,
{
    if i == 0 {
        acc
    } else {
        spec_gateway_step(spec_gateways_in(acc, pd, (i - 1) as nat), pd, pd.data@[i - 1])
    }
}

/// The gateway code of the first `p` processes.
pub open spec fn spec_gateways(ps: Seq<ProcessData>, p: nat) -> (Seq<char>, Seq<Seq<char>>)
    decreases p,
{
    if p == 0 {
        (Seq::empty(), Seq::empty())
    } else {
        spec_gateways_in(spec_gateways(ps, (p - 1) as nat), ps[p - 1], ps[p - 1].data@.len())
    }
}

/// The start of the scaffold, up to the builder.
pub open spec fn spec_scaffold_header() -> Seq<char> {
    "use snurr::{Process, ProcessBuilder, error::BuildError};\n\n// Replace () with your type\npub fn build(process_builder: ProcessBuilder<()>) -> Result<Process<()>, BuildError> {\n    process_builder"@
}

/// The scaffold of a diagram: the header, then the tasks of all processes,
/// then the branching gateways, then the call of `build`.
pub open spec fn spec_scaffold(d: Diagram) -> Seq<char> {
    spec_scaffold_header() + spec_tasks(d.data@, d.data@.len()).0 + spec_gateways(d.data@, d.data@.len()).0
        + "\n        .build()\n}"@
}

fn contains_name(v: &Vec<String>, s: &str) -> (r: bool)
    ensures
        r == views(v@).contains(s@),
{
    let mut i: usize = 0;
    while i < v.len()
        invariant
            i <= v@.len(),
            forall|j: int| 0 <= j < i ==> v@[j]@ != s@,
        decreases v@.len() - i,
    {
        if str_eq(v[i].as_str(), s) {
            assert(views(v@)[i as int] == s@);
            return true;
        }
        i = i + 1;
    }
    proof {
        if views(v@).contains(s@) {
            let j = choose|j: int| 0 <= j < views(v@).len() && views(v@)[j] == s@;
            assert(v@[j]@ == s@);
        }
    }
    false
}

fn same_item(a: &(Option<String>, Symbol), name: &Option<String>, symbol: Symbol) -> (r: bool)
    ensures
        r == (item_view(*a) == (opt_view(*name), symbol)),
{
    let same_name = match (&a.0, name) {
        (Some(x), Some(y)) => str_eq(x.as_str(), y.as_str()),
        (None, None) => true,
        _ => false,
    };
    same_name && a.1 == symbol
}

fn has_item(r: &Vec<(Option<String>, Symbol)>, name: &Option<String>, symbol: Symbol) -> (found: bool)
    ensures
        found == r@.map_values(|x: (Option<String>, Symbol)| item_view(x)).contains((opt_view(*name), symbol)),
{
    let ghost all = r@.map_values(|x: (Option<String>, Symbol)| item_view(x));
    let mut j: usize = 0;
    while j < r.len()
        invariant
            j <= r@.len(),
            all == r@.map_values(|x: (Option<String>, Symbol)| item_view(x)),
            forall|m: int| 0 <= m < j ==> all[m] != (opt_view(*name), symbol),
        decreases r@.len() - j,
    {
        if same_item(&r[j], name, symbol) {
            assert(all[j as int] == (opt_view(*name), symbol));
            return true;
        }
        j = j + 1;
    }
    false
}

/// The boundaries attached to the activity with index `id`, each once.
fn boundary_items(es: &Vec<(BoundaryKey, usize)>, id: usize) -> (r: Vec<(Option<String>, Symbol)>)
    ensures
        r@.map_values(|x: (Option<String>, Symbol)| item_view(x)) == spec_boundary_keys(es@, id),
{
    let mut r: Vec<(Option<String>, Symbol)> = Vec::new();
    let mut i: usize = 0;
    while i < es.len()
        invariant
            i <= es@.len(),
            r@.map_values(|x: (Option<String>, Symbol)| item_view(x)) == spec_boundary_keys(es@.subrange(0, i as int), id),
        decreases es@.len() - i,
    {
        proof {
            assert(es@.subrange(0, i + 1).drop_last() =~= es@.subrange(0, i as int));
        }
        let k = &es[i].0;
        if k.id == id {
            let ghost before = r@.map_values(|x: (Option<String>, Symbol)| item_view(x));
            let found = has_item(&r, &k.name, k.symbol);
            if !found {
                let name = match &k.name {
                    Some(n) => Some(owned(n.as_str())),
                    None => None,
                };
                r.push((name, k.symbol));
                proof {
                    assert(r@.map_values(|x: (Option<String>, Symbol)| item_view(x)) =~= before.push((opt_view(k.name), k.symbol)));
                }
            }
        }
        i = i + 1;
    }
    proof {
        assert(es@.subrange(0, es@.len() as int) =~= es@);
    }
    r
}

fn item_text(it: &(Option<String>, Symbol)) -> (r: String)
    ensures
        r@ == spec_item_text(item_view(*it)),
{
    proof {
        reveal_strlit("(");
        reveal_strlit("Some(\"");
        reveal_strlit("\")");
        reveal_strlit("None");
        reveal_strlit(", ");
        reveal_strlit(")");
        reveal_strlit("(Some(\"");
        reveal_strlit("\"), ");
        reveal_strlit("(None, ");
    }
    match &it.0 {
        Some(n) => join5("(Some(\"", n.as_str(), "\"), ", it.1.name(), ")"),
        None => join3("(None, ", it.1.name(), ")"),
    }
}

fn items_text(items: &Vec<(Option<String>, Symbol)>) -> (r: String)
    ensures
        r@ == spec_items_text(items@.map_values(|x: (Option<String>, Symbol)| item_view(x))),
{
    let ghost all = items@.map_values(|x: (Option<String>, Symbol)| item_view(x));
    let mut r: String = String::new();
    let mut i: usize = 0;
    while i < items.len()
        invariant
            i <= items@.len(),
            all == items@.map_values(|x: (Option<String>, Symbol)| item_view(x)),
            r@ == spec_items_text(all.subrange(0, i as int)),
        decreases items@.len() - i,
    {
        proof {
            assert(all.subrange(0, i + 1).drop_last() =~= all.subrange(0, i as int));
            reveal_strlit(", ");
        }
        if i > 0 {
            r.append(", ");
        }
        let t = item_text(&items[i]);
        r.append(t.as_str());
        i = i + 1;
    }
    proof {
        assert(all.subrange(0, all.len() as int) =~= all);
    }
    r
}

fn task_step(code: &mut String, seen: &mut Vec<String>, pd: &ProcessData, b: &Bpmn)
    ensures
        (final(code)@, views(final(seen)@)) == spec_task_step((old(code)@, views(old(seen)@)), *pd, *b),
{
    if let Bpmn::Activity(a) = b {
        let n = name_or_id(&a.name, &a.id);
        if a.activity_type != ActivityType::SubProcess && !contains_name(seen, n) {
            proof {
                reveal_strlit("\n        // \"");
                reveal_strlit("\" boundary symbols: [");
                reveal_strlit("]");
                reveal_strlit("\n        .task(\"");
                reveal_strlit("\", |input| Default::default())");
            }
            let ghost old_code = code@;
            let ghost old_seen = views(seen@);
            let items = boundary_items(&pd.events.boundaries, a.id.local_id);
            if items.len() > 0 {
                let t = items_text(&items);
                let c = join5("\n        // \"", n, "\" boundary symbols: [", t.as_str(), "]");
                code.append(c.as_str());
            }
            let line = join3("\n        .task(\"", n, "\", |input| Default::default())");
            code.append(line.as_str());
            seen.push(owned(n));
            proof {
                assert(views(seen@) =~= old_seen.push(n@));
                assert(code@ =~= old_code + spec_task_code(n@, spec_boundary_keys(pd.events.boundaries@, a.id.local_id)));
            }
        }
    }
}

fn flow_names_text(pd: &ProcessData, outputs: &Vec<usize>) -> (r: String)
    ensures
        r@ == spec_names_text(spec_flow_names(*pd, outputs@)),
{
    let mut r: String = String::new();
    let mut count: usize = 0;
    let mut i: usize = 0;
    while i < outputs.len()
        invariant
            i <= outputs@.len(),
            count == spec_flow_names(*pd, outputs@.subrange(0, i as int)).len(),
            count <= i,
            r@ == spec_names_text(spec_flow_names(*pd, outputs@.subrange(0, i as int))),
        decreases outputs@.len() - i,
    {
        proof {
            assert(outputs@.subrange(0, i + 1).drop_last() =~= outputs@.subrange(0, i as int));
            assert(outputs@.subrange(0, i + 1).last() == outputs@[i as int]);
            reveal_strlit(", ");
        }
        let idx = outputs[i];
        if idx < pd.data.len() {
            if let Bpmn::SequenceFlow { name: Some(n), .. } = &pd.data[idx] {
                let ghost prev = spec_flow_names(*pd, outputs@.subrange(0, i as int));
                if count > 0 {
                    r.append(", ");
                }
                r.append(n.as_str());
                count = count + 1;
                proof {
                    assert(prev.push(n@).drop_last() =~= prev);
                    assert(spec_flow_names(*pd, outputs@.subrange(0, i + 1)) == prev.push(n@));
                }
            }
        }
        i = i + 1;
    }
    proof {
        assert(outputs@.subrange(0, outputs@.len() as int) =~= outputs@);
    }
    r
}

fn gateway_step(code: &mut String, seen: &mut Vec<String>, pd: &ProcessData, b: &Bpmn)
    ensures
        (final(code)@, views(final(seen)@)) == spec_gateway_step((old(code)@, views(old(seen)@)), *pd, *b),
{
    if let Bpmn::Gateway(g) = b {
        let n = name_or_id(&g.name, &g.id);
        if g.gateway_type != GatewayType::Parallel && g.outputs.local_ids.len() > 1 && !contains_name(seen, n) {
            proof {
                reveal_strlit("\n        // outputs: ");
                reveal_strlit("\n        .exclusive(\"");
                reveal_strlit("\n        .inclusive(\"");
                reveal_strlit("\n        .event_based(\"");
                reveal_strlit("\", |input| Default::default())");
                reveal_strlit("\", |input| // Implement)");
            }
            let ghost old_code = code@;
            let ghost old_seen = views(seen@);
            let names = flow_names_text(pd, &g.outputs.local_ids);
            code.append("\n        // outputs: ");
            code.append(names.as_str());
            let call = match g.gateway_type {
                GatewayType::Exclusive => join3("\n        .exclusive(\"", n, "\", |input| Default::default())"),
                GatewayType::Inclusive => join3("\n        .inclusive(\"", n, "\", |input| Default::default())"),
                _ => join3("\n        .event_based(\"", n, "\", |input| // Implement)"),
            };
            code.append(call.as_str());
            seen.push(owned(n));
            proof {
                assert(views(seen@) =~= old_seen.push(n@));
            }
        }
    }
}

impl Diagram {
    /// Rust code that registers a default function for every plain task and
    /// every branching gateway (by name, else id; each name once), with the
    /// boundary events of each task and the names of each gateway's outputs
    /// as comments.
    pub fn scaffold(&self) -> (r: String)
        ensures
            r@ == spec_scaffold(*self),
    {
        let mut tasks = String::new();
        let mut seen: Vec<String> = Vec::new();
        let mut p: usize = 0;
        while p < self.data.len()
            invariant
                p <= self.data@.len(),
                (tasks@, views(seen@)) == spec_tasks(self.data@, p as nat),
            decreases self.data@.len() - p,
        {
            let pd = &self.data[p];
            let ghost start = spec_tasks(self.data@, p as nat);
            let mut i: usize = 0;
            while i < pd.data.len()
                invariant
                    i <= pd.data@.len(),
                    *pd == self.data@[p as int],
                    (tasks@, views(seen@)) == spec_tasks_in(start, *pd, i as nat),
                decreases pd.data@.len() - i,
            {
                task_step(&mut tasks, &mut seen, pd, &pd.data[i]);
                i = i + 1;
            }
            p = p + 1;
        }
        let mut gateways = String::new();
        let mut seen_gateways: Vec<String> = Vec::new();
        let mut p: usize = 0;
        while p < self.data.len()
            invariant
                p <= self.data@.len(),
                (gateways@, views(seen_gateways@)) == spec_gateways(self.data@, p as nat),
            decreases self.data@.len() - p,
        {
            let pd = &self.data[p];
            let ghost start = spec_gateways(self.data@, p as nat);
            let mut i: usize = 0;
            while i < pd.data.len()
                invariant
                    i <= pd.data@.len(),
                    *pd == self.data@[p as int],
                    (gateways@, views(seen_gateways@)) == spec_gateways_in(start, *pd, i as nat),
                decreases pd.data@.len() - i,
            {
                gateway_step(&mut gateways, &mut seen_gateways, pd, &pd.data[i]);
                i = i + 1;
            }
            p = p + 1;
        }
        proof {
            reveal_strlit("use snurr::{Process, ProcessBuilder, error::BuildError};\n\n// Replace () with your type\npub fn build(process_builder: ProcessBuilder<()>) -> Result<Process<()>, BuildError> {\n    process_builder");
            reveal_strlit("\n        .build()\n}");
        }
        join4(
            "use snurr::{Process, ProcessBuilder, error::BuildError};\n\n// Replace () with your type\npub fn build(process_builder: ProcessBuilder<()>) -> Result<Process<()>, BuildError> {\n    process_builder",
            tasks.as_str(),
            gateways.as_str(),
            "\n        .build()\n}",
        )
    }
}

} // verus!

//! The trace analyzer: the crash and non-crash trace sets, the joint
//! control-flow graph, and the per-address best predicates.
use std::collections::HashSet;
use vstd::prelude::*;
use crate::control_flow_graph::{CFGCollector, ControlFlowGraph};
use crate::predicates::{score_lt, Predicate, Score, SerializedPredicate};
use crate::trace::{Instruction, Register, Selector, Trace, TraceVec};
use crate::text::contains;

verus! {

broadcast use vstd::std_specs::hash::group_hash_axioms;

/// Bounds of the heap and the stack of the traced process.
#[derive(Clone, Copy, Debug, PartialEq, Eq, Structural)]
pub struct MemoryAddresses {
    pub heap_start: usize,
    pub heap_end: usize,
    pub stack_start: usize,
    pub stack_end: usize,
}

/// The summary at address `a` in trace `t`, if `t` visits `a`.
pub open spec fn instr_at(t: Trace, a: usize) -> Option<Instruction> {
    if t.instructions@.contains_key(a) {
        Some(t.instructions@[a])
    } else {
        None
    }
}

/// Whether some trace of `ts` visits `a`.
pub open spec fn visited_by_any(ts: Seq<Trace>, a: usize) -> bool {
    exists|i: int| 0 <= i < ts.len() && (#[trigger] ts[i]).instructions@.contains_key(a)
}

/// Whether every trace of `ts` is well formed.
pub open spec fn all_wf(ts: Seq<Trace>) -> bool {
    forall|i: int| 0 <= i < ts.len() ==> #[trigger] ts[i].wf()
}

/// The register map that `selector` reads (minimum for every selector but
/// the maximum).
pub open spec fn selected(instr: Instruction, selector: Selector) -> Map<usize, Register> {
    if selector == Selector::RegMax {
        instr.registers_max.view()
    } else {
        instr.registers_min.view()
    }
}

/// The values of register `reg` that `selector` reads at `a`, trace by trace.
pub open spec fn values_in(ts: Seq<Trace>, a: usize, selector: Selector, reg: usize) -> Seq<u64>
    decreases ts.len(),
{
    if ts.len() == 0 {
        Seq::empty()
    } else {
        let prev = values_in(ts.drop_last(), a, selector, reg);
        match instr_at(ts.last(), a) {
            Some(i) => if selected(i, selector).contains_key(reg) {
                prev.push(selected(i, selector)[reg].value)
            } else {
                prev
            },
            None => prev,
        }
    }
}

/// The address, score and name of an exported predicate.
pub open spec fn export_key(s: SerializedPredicate) -> (usize, Score, Seq<char>) {
    (s.address, s.score, s.name@)
}

/// The address, score and name of a predicate.
pub open spec fn predicate_key(p: Predicate) -> (usize, Score, Seq<char>) {
    (p.address, p.score, p.name@)
}

/// Whether `s` is the exported form of `p`.
pub open spec fn exports(s: SerializedPredicate, p: Predicate) -> bool {
    s.address == p.address && s.score == p.score && s.name@ == p.name@
}

/// Whether `s` is the exported form of one of the first `n` predicates.
pub open spec fn exported_from(s: SerializedPredicate, ps: Seq<Predicate>, n: int) -> bool {
    exists|j: int| 0 <= j < n && j < ps.len() && #[trigger] exports(s, ps[j])
}

/// Whether some crash or non-crash trace goes from `a` to `b`.
pub open spec fn joint_edge(t: TraceAnalyzer, a: usize, b: usize) -> bool {
    trace_edge(t.crashes.0@, a, b) || trace_edge(t.non_crashes.0@, a, b)
}

/// Whether `s` holds every address that an edge leads to from within it.
pub open spec fn closed_under_edges(t: TraceAnalyzer, s: Set<usize>) -> bool {
    forall|a: usize, b: usize| s.contains(a) && joint_edge(t, a, b) ==> s.contains(b)
}

/// Whether `h` is an entry: an end of some edge, with no edge into it.
pub open spec fn is_entry(t: TraceAnalyzer, h: usize) -> bool {
    (exists|y: usize| joint_edge(t, h, y) || joint_edge(t, y, h)) && forall|x: usize| !joint_edge(t, x, h)
}

/// Whether `a` is reachable from `h`: every edge-closed set that holds `h`
/// holds `a`.
pub open spec fn reachable(t: TraceAnalyzer, h: usize, a: usize) -> bool {
    forall|s: Set<usize>| s.contains(h) && closed_under_edges(t, s) ==> s.contains(a)
}

/// What the built graph is: its addresses hold an entry, are closed under
/// the traces' edges, and each is an end of some edge.
pub open spec fn cfg_spans_edges(t: TraceAnalyzer) -> bool {
    &&& exists|h: usize| t.cfg.addresses().contains(h) && is_entry(t, h)
    &&& closed_under_edges(t, t.cfg.addresses())
    &&& forall|a: usize| t.cfg.addresses().contains(a) ==> exists|y: usize| joint_edge(t, a, y) || joint_edge(t, y, a)
}

/// The graph's addresses are exactly the addresses that the traces visit,
/// provided every successor address is itself visited and every visited
/// address is reachable from the entry.
pub proof fn lemma_cfg_addresses_are_visited(t: TraceAnalyzer)
    requires
        cfg_spans_edges(t),
        forall|a: usize, b: usize| joint_edge(t, a, b)
            ==> visited_by_any(t.crashes.0@, b) || visited_by_any(t.non_crashes.0@, b),
        forall|h: usize, a: usize| is_entry(t, h) && (visited_by_any(t.crashes.0@, a) || visited_by_any(t.non_crashes.0@, a))
            ==> reachable(t, h, a),
    ensures
        forall|a: usize| t.cfg.addresses().contains(a)
            <==> visited_by_any(t.crashes.0@, a) || visited_by_any(t.non_crashes.0@, a),
{
    let h = choose|h: usize| t.cfg.addresses().contains(h) && is_entry(t, h);
    assert forall|a: usize| t.cfg.addresses().contains(a)
        <==> visited_by_any(t.crashes.0@, a) || visited_by_any(t.non_crashes.0@, a) by {
        if visited_by_any(t.crashes.0@, a) || visited_by_any(t.non_crashes.0@, a) {
            assert(reachable(t, h, a));
            assert(closed_under_edges(t, t.cfg.addresses()));
        }
        if t.cfg.addresses().contains(a) {
            let y = choose|y: usize| joint_edge(t, a, y) || joint_edge(t, y, a);
            if joint_edge(t, a, y) {
                lemma_edge_source_visited(t, a, y);
            }
        }
    }
}

/// The source of an edge is visited.
proof fn lemma_edge_source_visited(t: TraceAnalyzer, a: usize, b: usize)
    requires
        joint_edge(t, a, b),
    ensures
        visited_by_any(t.crashes.0@, a) || visited_by_any(t.non_crashes.0@, a),
{
    if trace_edge(t.crashes.0@, a, b) {
        let i = choose|i: int| 0 <= i < t.crashes.0@.len() && #[trigger] trace_has_edge(t.crashes.0@[i], a, b);
        assert(t.crashes.0@[i].instructions@.contains_key(a));
    } else {
        let i = choose|i: int| 0 <= i < t.non_crashes.0@.len() && #[trigger] trace_has_edge(t.non_crashes.0@[i], a, b);
        assert(t.non_crashes.0@[i].instructions@.contains_key(a));
    }
}

/// With the collector holding exactly the traces' edges, the edges have a
/// unique entry exactly when the collector has a single head.
proof fn lemma_entry_is_head(t: TraceAnalyzer, c: CFGCollector)
    requires
        c.wf(),
        nodes_are_endpoints(c),
        forall|x: usize, y: usize| #[trigger] c.edge(x, y) == joint_edge(t, x, y),
    ensures
        (exists|h: usize| is_entry(t, h) && forall|g: usize| is_entry(t, g) ==> g == h)
            <==> c.heads_upto(c.nodes@.len() as int).len() == 1,
{
    assert forall|h: usize| is_entry(t, h) <==> c.is_head_node(h) by {
        if c.is_head_node(h) {
            assert(endpoint(c, h));
            let y = choose|y: usize| c.edge(h, y) || c.edge(y, h);
            assert(joint_edge(t, h, y) || joint_edge(t, y, h));
            assert forall|x: usize| !joint_edge(t, x, h) by {
                if c.edge(x, h) {
                    assert(c.predecessors@[h]@.contains(x));
                }
            }
        }
        if is_entry(t, h) {
            let y = choose|y: usize| joint_edge(t, h, y) || joint_edge(t, y, h);
            assert(c.edge(h, y) || c.edge(y, h));
            assert(c.nodes@.contains(h));
            if c.predecessors@[h]@.len() != 0 {
                let x = c.predecessors@[h]@[0];
                assert(c.predecessors@[h]@.contains(x));
                assert(c.edge(x, h));
                assert(joint_edge(t, x, h));
            }
        }
    }
    c.lemma_heads_set(c.nodes@.len() as int);
    c.lemma_single_head();
    if exists|h: usize| is_entry(t, h) && forall|g: usize| is_entry(t, g) ==> g == h {
        let h = choose|h: usize| is_entry(t, h) && forall|g: usize| is_entry(t, g) ==> g == h;
        assert(c.is_head_node(h));
        assert forall|g: usize| c.is_head_node(g) implies g == h by {
            assert(is_entry(t, g));
        }
    }
    if exists|h: usize| c.is_head_node(h) && forall|g: usize| c.is_head_node(g) ==> g == h {
        let h = choose|h: usize| c.is_head_node(h) && forall|g: usize| c.is_head_node(g) ==> g == h;
        assert(is_entry(t, h));
        assert forall|g: usize| is_entry(t, g) implies g == h by {
            assert(c.is_head_node(g));
        }
    }
}

/// Whether trace `t` visits `a` with `b` among its successors.
pub open spec fn trace_has_edge(t: Trace, a: usize, b: usize) -> bool {
    t.instructions@.contains_key(a) && crate::predicates::has_successor(t.instructions@[a], b)
}

/// Whether some trace of `ts` goes from `a` to `b`.
pub open spec fn trace_edge(ts: Seq<Trace>, a: usize, b: usize) -> bool {
    exists|i: int| 0 <= i < ts.len() && #[trigger] trace_has_edge(ts[i], a, b)
}

/// Whether `x` is an end of some edge of `c`.
pub open spec fn endpoint(c: CFGCollector, x: usize) -> bool {
    exists|y: usize| c.edge(x, y) || c.edge(y, x)
}

/// Every node of `c` is an end of some edge.
pub open spec fn nodes_are_endpoints(c: CFGCollector) -> bool {
    forall|x: usize| c.nodes@.contains(x) ==> #[trigger] endpoint(c, x)
}

/// Adds `a -> s.address` for each successor `s` of `instr`.
fn collect_successors(a: usize, instr: &Instruction, collector: &mut CFGCollector)
    requires
        old(collector).wf(),
        nodes_are_endpoints(*old(collector)),
    ensures
        final(collector).wf(),
        nodes_are_endpoints(*final(collector)),
        forall|x: usize, y: usize| final(collector).edge(x, y)
            <==> old(collector).edge(x, y) || (x == a && crate::predicates::has_successor(*instr, y)),
{
    let mut j: usize = 0;
    while j < instr.successors.len()
        invariant
            collector.wf(),
            nodes_are_endpoints(*collector),
            j <= instr.successors@.len(),
            forall|x: usize, y: usize| collector.edge(x, y) <==> old(collector).edge(x, y)
                || (x == a && exists|m: int| 0 <= m < j && instr.successors@[m].address == y),
        decreases instr.successors@.len() - j,
    {
        let ghost before = *collector;
        let b = instr.successors[j].address;
        collector.add_edge(a, b);
        proof {
            assert forall|x: usize| collector.nodes@.contains(x) implies #[trigger] endpoint(*collector, x) by {
                assert(collector.nodes@.contains(x) == collector.nodes@.to_set().contains(x));
                assert(before.nodes@.contains(x) == before.nodes@.to_set().contains(x));
                if x == a {
                    assert(collector.edge(a, b));
                } else if x == b {
                    assert(collector.edge(a, b));
                } else {
                    assert(endpoint(before, x));
                    let y = choose|y: usize| before.edge(x, y) || before.edge(y, x);
                    assert(collector.edge(x, y) || collector.edge(y, x));
                }
            }
            assert forall|x: usize, y: usize| collector.edge(x, y) <==> old(collector).edge(x, y)
                || (x == a && exists|m: int| 0 <= m < j + 1 && instr.successors@[m].address == y) by {
                if x == a && y == b {
                    assert(instr.successors@[j as int].address == y);
                }
                if x == a && (exists|m: int| 0 <= m < j + 1 && instr.successors@[m].address == y) && y != b {
                    let m = choose|m: int| 0 <= m < j + 1 && instr.successors@[m].address == y;
                    assert(m < j);
                }
            }
        }
        j = j + 1;
    }
}

/// Records the successor edges of every instruction of `ts`.
fn collect_edges(ts: &Vec<Trace>, collector: &mut CFGCollector)
    requires
        old(collector).wf(),
        nodes_are_endpoints(*old(collector)),
        all_wf(ts@),
    ensures
        final(collector).wf(),
        nodes_are_endpoints(*final(collector)),
        forall|x: usize, y: usize| final(collector).edge(x, y) <==> old(collector).edge(x, y) || trace_edge(ts@, x, y),
{
    let mut i: usize = 0;
    while i < ts.len()
        invariant
            collector.wf(),
            nodes_are_endpoints(*collector),
            all_wf(ts@),
            i <= ts@.len(),
            forall|x: usize, y: usize| collector.edge(x, y)
                <==> old(collector).edge(x, y) || trace_edge(ts@.subrange(0, i as int), x, y),
        decreases ts@.len() - i,
    {
        let t = &ts[i];
        assert(t.wf());
        let ghost c_trace = *collector;
        let mut k: usize = 0;
        while k < t.addresses.len()
            invariant
                collector.wf(),
                nodes_are_endpoints(*collector),
                t.wf(),
                k <= t.addresses@.len(),
                forall|x: usize, y: usize| collector.edge(x, y) <==> c_trace.edge(x, y)
                    || (t.addresses@.subrange(0, k as int).contains(x) && trace_has_edge(*t, x, y)),
            decreases t.addresses@.len() - k,
        {
            let a = t.addresses[k];
            assert(t.addresses@.contains(a));
            let instr = t.instructions.get(&a).unwrap();
            let ghost c_before = *collector;
            collect_successors(a, instr, collector);
            proof {
                let pre = t.addresses@.subrange(0, k as int);
                let post = t.addresses@.subrange(0, k + 1);
                assert(post =~= pre.push(a));
                pre.lemma_push_to_set_commute(a);
                assert forall|x: usize, y: usize| collector.edge(x, y) <==> c_trace.edge(x, y)
                    || (post.contains(x) && trace_has_edge(*t, x, y)) by {
                    assert(post.contains(x) == post.to_set().contains(x));
                    assert(pre.contains(x) == pre.to_set().contains(x));
                }
            }
            k = k + 1;
        }
        proof {
            assert(t.addresses@.subrange(0, t.addresses@.len() as int) =~= t.addresses@);
            let s0 = ts@.subrange(0, i as int);
            let s1 = ts@.subrange(0, i + 1);
            assert(s1[i as int] == *t);
            assert forall|x: usize, y: usize| collector.edge(x, y)
                <==> old(collector).edge(x, y) || trace_edge(s1, x, y) by {
                if trace_edge(s1, x, y) {
                    let m = choose|m: int| 0 <= m < s1.len() && #[trigger] trace_has_edge(s1[m], x, y);
                    if m < i {
                        assert(s0[m] == s1[m]);
                        assert(trace_has_edge(s0[m], x, y));
                    } else {
                        assert(t.addresses@.contains(x));
                    }
                }
                if trace_edge(s0, x, y) {
                    let m = choose|m: int| 0 <= m < s0.len() && #[trigger] trace_has_edge(s0[m], x, y);
                    assert(s1[m] == s0[m]);
                    assert(trace_has_edge(s1[m], x, y));
                }
                if t.addresses@.contains(x) && trace_has_edge(*t, x, y) {
                    assert(trace_has_edge(s1[i as int], x, y));
                }
            }
        }
        i = i + 1;
    }
    assert(ts@.subrange(0, ts@.len() as int) =~= ts@);
}

/// Whether some trace of `ts` records register `reg` in the minimum map at `a`.
pub open spec fn any_records(ts: Seq<Trace>, a: usize, reg: usize) -> bool {
    exists|i: int| 0 <= i < ts.len() && match #[trigger] instr_at(ts[i], a) {
        Some(instr) => instr.registers_min.view().contains_key(reg),
        None => false,
    }
}

/// Whether `path` contains some entry of `list`.
fn contains_any(path: &String, list: &Vec<String>) -> (r: bool)
    ensures
        r == exists|i: int| 0 <= i < list@.len() && crate::text::contains_seq(path@, #[trigger] list@[i]@),
{
    let mut k: usize = 0;
    while k < list.len()
        invariant
            k <= list@.len(),
            forall|i: int| 0 <= i < k ==> !crate::text::contains_seq(path@, #[trigger] list@[i]@),
        decreases list@.len() - k,
    {
        if contains(path.as_str(), list[k].as_str()) {
            assert(crate::text::contains_seq(path@, list@[k as int]@));
            return true;
        }
        k = k + 1;
    }
    false
}

/// Whether `path` contains any entry of the blacklist.
pub fn blacklist_path(path: &String, blacklist: &Option<Vec<String>>) -> (r: bool)
    ensures
        r == match blacklist {
            Some(list) => exists|i: int| 0 <= i < list@.len() && crate::text::contains_seq(path@, #[trigger] list@[i]@),
            None => false,
        },
{
    match blacklist {
        Some(list) => contains_any(path, list),
        None => false,
    }
}

/// Whether `trace` visits some address of `addresses`.
fn visits_any(trace: &Trace, addresses: &Vec<usize>) -> (r: bool)
    ensures
        r == exists|i: int| 0 <= i < addresses@.len() && trace.instructions@.contains_key(#[trigger] addresses@[i]),
{
    let mut k: usize = 0;
    while k < addresses.len()
        invariant
            k <= addresses@.len(),
            forall|i: int| 0 <= i < k ==> !trace.instructions@.contains_key(#[trigger] addresses@[i]),
        decreases addresses@.len() - k,
    {
        if trace.instructions.contains_key(&addresses[k]) {
            assert(trace.instructions@.contains_key(addresses@[k as int]));
            return true;
        }
        k = k + 1;
    }
    false
}

/// Whether a trace is kept: with a set of required addresses, it must
/// visit one of them.
pub fn store_trace(trace: &Trace, must_have: &Option<Vec<usize>>) -> (r: bool)
    ensures
        r == match must_have {
            Some(addresses) => exists|i: int| 0 <= i < addresses@.len()
                && trace.instructions@.contains_key(#[trigger] addresses@[i]),
            None => true,
        },
{
    match must_have {
        Some(addresses) => visits_any(trace, addresses),
        None => true,
    }
}

/// Adds each entry of `list` to `seen`, and to `out` when it is new there.
fn add_addresses(list: &Vec<usize>, seen: &mut HashSet<usize>, out: &mut Vec<usize>)
    requires
        old(out)@.no_duplicates(),
        forall|a: usize| old(out)@.contains(a) <==> old(seen)@.contains(a),
    ensures
        final(out)@.no_duplicates(),
        forall|a: usize| final(out)@.contains(a) <==> final(seen)@.contains(a),
        forall|a: usize| #[trigger] final(seen)@.contains(a) <==> old(seen)@.contains(a) || list@.contains(a),
{
    let mut k: usize = 0;
    while k < list.len()
        invariant
            k <= list@.len(),
            out@.no_duplicates(),
            forall|a: usize| out@.contains(a) <==> seen@.contains(a),
            forall|a: usize| seen@.contains(a) <==> old(seen)@.contains(a) || list@.subrange(0, k as int).contains(a),
        decreases list@.len() - k,
    {
        let a = list[k];
        let ghost pre = list@.subrange(0, k as int);
        assert(list@.subrange(0, k + 1) =~= pre.push(a));
        proof {
            pre.lemma_push_to_set_commute(a);
        }
        if !seen.contains(&a) {
            seen.insert(a);
            let ghost before = out@;
            out.push(a);
            proof {
                before.lemma_push_to_set_commute(a);
                assert forall|x: int, y: int| 0 <= x < y < out@.len() implies out@[x] != out@[y] by {
                    if y == out@.len() - 1 {
                        assert(before.contains(out@[x]));
                    }
                }
                assert forall|b: usize| out@.contains(b) <==> seen@.contains(b) by {
                    assert(out@.contains(b) == out@.to_set().contains(b));
                    assert(before.contains(b) == before.to_set().contains(b));
                }
            }
        }
        proof {
            assert forall|b: usize| seen@.contains(b) <==> old(seen)@.contains(b)
                || list@.subrange(0, k + 1).contains(b) by {
                assert(list@.subrange(0, k + 1).contains(b) == list@.subrange(0, k + 1).to_set().contains(b));
                assert(pre.contains(b) == pre.to_set().contains(b));
            }
        }
        k = k + 1;
    }
    assert(list@.subrange(0, list@.len() as int) =~= list@);
}

/// Visiting in the first `i + 1` traces is visiting in the first `i` or
/// in trace `i`.
pub proof fn lemma_visited_push(ts: Seq<Trace>, i: int, a: usize)
    requires
        0 <= i < ts.len(),
    ensures
        visited_by_any(ts.subrange(0, i + 1), a)
            == (visited_by_any(ts.subrange(0, i), a) || ts[i].instructions@.contains_key(a)),
{
    let s0 = ts.subrange(0, i);
    let s1 = ts.subrange(0, i + 1);
    if visited_by_any(s1, a) {
        let j = choose|j: int| 0 <= j < s1.len() && (#[trigger] s1[j]).instructions@.contains_key(a);
        if j < i {
            assert(s0[j] == s1[j]);
        }
    }
    if visited_by_any(s0, a) {
        let j = choose|j: int| 0 <= j < s0.len() && (#[trigger] s0[j]).instructions@.contains_key(a);
        assert(s1[j] == s0[j]);
    }
    if ts[i].instructions@.contains_key(a) {
        assert(s1[i] == ts[i]);
    }
}

/// The analyzer state.
pub struct TraceAnalyzer {
    pub crashes: TraceVec,
    pub non_crashes: TraceVec,
    /// The best predicate of each scored address.
    pub address_scores: Vec<Predicate>,
    pub cfg: ControlFlowGraph,
    pub memory_addresses: MemoryAddresses,
}

impl TraceAnalyzer {
    pub open spec fn wf(&self) -> bool {
        &&& all_wf(self.crashes.0@)
        &&& all_wf(self.non_crashes.0@)
        &&& self.cfg.wf()
    }

    /// An analyzer over the given traces, with an empty graph and no scores.
    pub fn new(crashes: TraceVec, non_crashes: TraceVec, memory_addresses: MemoryAddresses) -> (r: TraceAnalyzer)
        requires
            all_wf(crashes.0@),
            all_wf(non_crashes.0@),
        ensures
            r.wf(),
            r.crashes.0@ == crashes.0@,
            r.non_crashes.0@ == non_crashes.0@,
            r.memory_addresses == memory_addresses,
            r.address_scores@.len() == 0,
            r.cfg.addresses() == Set::<usize>::empty(),
    {
        TraceAnalyzer { crashes, non_crashes, address_scores: Vec::new(), cfg: ControlFlowGraph::new(), memory_addresses }
    }

    /// Adds the union of `ts`'s visited addresses to `seen` and `out`.
    fn add_union(ts: &Vec<Trace>, seen: &mut HashSet<usize>, out: &mut Vec<usize>)
        requires
            all_wf(ts@),
            old(out)@.no_duplicates(),
            forall|a: usize| old(out)@.contains(a) <==> old(seen)@.contains(a),
        ensures
            final(out)@.no_duplicates(),
            forall|a: usize| final(out)@.contains(a) <==> final(seen)@.contains(a),
            forall|a: usize| #[trigger] final(seen)@.contains(a) <==> old(seen)@.contains(a) || visited_by_any(ts@, a),
    {
        let mut i: usize = 0;
        while i < ts.len()
            invariant
                all_wf(ts@),
                i <= ts@.len(),
                out@.no_duplicates(),
                forall|a: usize| out@.contains(a) <==> seen@.contains(a),
                forall|a: usize| seen@.contains(a) <==> old(seen)@.contains(a) || visited_by_any(ts@.subrange(0, i as int), a),
            decreases ts@.len() - i,
        {
            let t = &ts[i];
            assert(t.wf());
            let ghost seen_i = seen@;
            add_addresses(&t.addresses, seen, out);
            proof {
                assert forall|a: usize| seen@.contains(a) <==> old(seen)@.contains(a)
                    || visited_by_any(ts@.subrange(0, i + 1), a) by {
                    lemma_visited_push(ts@, i as int, a);
                    if t.addresses@.contains(a) {
                        assert(t.instructions@.contains_key(a));
                    }
                    if t.instructions@.contains_key(a) {
                        assert(t.addresses@.contains(a));
                    }
                }
            }
            i = i + 1;
        }
        assert(ts@.subrange(0, ts@.len() as int) =~= ts@);
    }

    /// Every address visited by some trace, each once.
    pub fn address_union(&self) -> (r: Vec<usize>)
        requires
            self.wf(),
        ensures
            r@.no_duplicates(),
            forall|a: usize| r@.contains(a)
                <==> visited_by_any(self.crashes.0@, a) || visited_by_any(self.non_crashes.0@, a),
    {
        let mut seen: HashSet<usize> = HashSet::new();
        let mut out: Vec<usize> = Vec::new();
        TraceAnalyzer::add_union(&self.crashes.0, &mut seen, &mut out);
        let mut non_seen: HashSet<usize> = HashSet::new();
        let mut non_list: Vec<usize> = Vec::new();
        TraceAnalyzer::add_union(&self.non_crashes.0, &mut non_seen, &mut non_list);
        let ghost crash_seen = seen@;
        add_addresses(&non_list, &mut seen, &mut out);
        assert forall|a: usize| out@.contains(a)
            <==> visited_by_any(self.crashes.0@, a) || visited_by_any(self.non_crashes.0@, a) by {
            assert(out@.contains(a) == seen@.contains(a));
            assert(seen@.contains(a) == (crash_seen.contains(a) || non_list@.contains(a)));
            assert(non_list@.contains(a) == non_seen@.contains(a));
            assert(non_seen@.contains(a) == visited_by_any(self.non_crashes.0@, a));
            assert(crash_seen.contains(a) == visited_by_any(self.crashes.0@, a));
        }
        out
    }

    /// Every address visited by some crash trace, each once.
    pub fn crash_address_union(&self) -> (r: Vec<usize>)
        requires
            self.wf(),
        ensures
            r@.no_duplicates(),
            forall|a: usize| r@.contains(a) <==> visited_by_any(self.crashes.0@, a),
    {
        let mut seen: HashSet<usize> = HashSet::new();
        let mut out: Vec<usize> = Vec::new();
        TraceAnalyzer::add_union(&self.crashes.0, &mut seen, &mut out);
        out
    }

    /// Every address visited by some crash trace and by some non-crash
    /// trace, each once.
    pub fn crash_non_crash_intersection(&self) -> (r: Vec<usize>)
        requires
            self.wf(),
        ensures
            r@.no_duplicates(),
            forall|a: usize| r@.contains(a)
                <==> visited_by_any(self.crashes.0@, a) && visited_by_any(self.non_crashes.0@, a),
    {
        let mut crash_seen: HashSet<usize> = HashSet::new();
        let mut crash_list: Vec<usize> = Vec::new();
        TraceAnalyzer::add_union(&self.crashes.0, &mut crash_seen, &mut crash_list);
        let mut non_seen: HashSet<usize> = HashSet::new();
        let mut non_list: Vec<usize> = Vec::new();
        TraceAnalyzer::add_union(&self.non_crashes.0, &mut non_seen, &mut non_list);
        let mut out: Vec<usize> = Vec::new();
        let mut k: usize = 0;
        while k < non_list.len()
            invariant
                k <= non_list@.len(),
                non_list@.no_duplicates(),
                out@.no_duplicates(),
                forall|a: usize| out@.contains(a) <==> crash_seen@.contains(a)
                    && exists|j: int| 0 <= j < k && non_list@[j] == a,
            decreases non_list@.len() - k,
        {
            let a = non_list[k];
            if crash_seen.contains(&a) {
                let ghost before = out@;
                out.push(a);
                proof {
                    assert forall|x: int, y: int| 0 <= x < y < out@.len() implies out@[x] != out@[y] by {
                        if y == out@.len() - 1 {
                            assert(before.contains(out@[x]));
                            let j = choose|j: int| 0 <= j < k && non_list@[j] == out@[x];
                            assert(non_list@[j] != non_list@[k as int]);
                        }
                    }
                    assert forall|b: usize| out@.contains(b) <==> crash_seen@.contains(b)
                        && exists|j: int| 0 <= j < k + 1 && non_list@[j] == b by {
                        if out@.contains(b) && b != a {
                            let x = choose|x: int| 0 <= x < out@.len() && out@[x] == b;
                            assert(before[x] == b);
                        }
                        if b == a {
                            assert(out@[out@.len() - 1] == a);
                            assert(non_list@[k as int] == a);
                        } else if crash_seen@.contains(b) && exists|j: int| 0 <= j < k + 1 && non_list@[j] == b {
                            let j = choose|j: int| 0 <= j < k + 1 && non_list@[j] == b;
                            assert(j < k);
                            assert(before.contains(b));
                            let x = choose|x: int| 0 <= x < before.len() && before[x] == b;
                            assert(out@[x] == b);
                        }
                    }
                }
            } else {
                proof {
                    assert forall|b: usize| out@.contains(b) <==> crash_seen@.contains(b)
                        && exists|j: int| 0 <= j < k + 1 && non_list@[j] == b by {
                        if crash_seen@.contains(b) && exists|j: int| 0 <= j < k + 1 && non_list@[j] == b {
                            let j = choose|j: int| 0 <= j < k + 1 && non_list@[j] == b;
                            if j == k {
                                assert(b == a);
                            }
                        }
                    }
                }
            }
            k = k + 1;
        }
        proof {
            assert forall|a: usize| out@.contains(a)
                <==> visited_by_any(self.crashes.0@, a) && visited_by_any(self.non_crashes.0@, a) by {
                assert(crash_seen@.contains(a) == visited_by_any(self.crashes.0@, a));
                assert(non_seen@.contains(a) == visited_by_any(self.non_crashes.0@, a));
                assert(non_list@.contains(a) == non_seen@.contains(a));
                if visited_by_any(self.non_crashes.0@, a) {
                    assert(non_list@.contains(a));
                    let j = choose|j: int| 0 <= j < non_list@.len() && non_list@[j] == a;
                }
            }
        }
        out
    }

    /// Whether some trace records register `reg` in the minimum map at `address`.
    pub fn any_instruction_at_address_contains_reg(&self, address: usize, reg_index: usize) -> (r: bool)
        ensures
            r == (any_records(self.crashes.0@, address, reg_index) || any_records(self.non_crashes.0@, address, reg_index)),
    {
        any_trace_records(&self.crashes.0, address, reg_index) || any_trace_records(&self.non_crashes.0, address, reg_index)
    }

    /// The mnemonic at `address` in the first trace (crashes first) that visits it.
    pub fn get_any_mnemonic(&self, address: usize) -> (r: String)
        requires
            visited_by_any(self.crashes.0@, address) || visited_by_any(self.non_crashes.0@, address),
        ensures
            r@ == any_mnemonic(*self, address),
    {
        match first_mnemonic(&self.crashes.0, address) {
            Some(m) => m,
            None => first_mnemonic(&self.non_crashes.0, address).unwrap(),
        }
    }

    /// The values of register `reg_index` that `selector` reads at
    /// `address`, crash traces first.
    pub fn values_at_address(&self, address: usize, selector: &Selector, reg_index: usize) -> (r: Vec<u64>)
        requires
            *selector == Selector::RegMin || *selector == Selector::RegMax,
        ensures
            r@ == values_in(self.crashes.0@, address, *selector, reg_index)
                + values_in(self.non_crashes.0@, address, *selector, reg_index),
    {
        let mut r = trace_values(&self.crashes.0, address, selector, reg_index);
        let mut more = trace_values(&self.non_crashes.0, address, selector, reg_index);
        r.append(&mut more);
        r
    }

    /// The distinct values of `values_at_address`, in ascending order.
    pub fn unique_values_at_address(&self, address: usize, selector: &Selector, reg_index: usize) -> (r: Vec<u64>)
        requires
            *selector == Selector::RegMin || *selector == Selector::RegMax,
        ensures
            forall|i: int, j: int| 0 <= i < j < r@.len() ==> r@[i] < r@[j],
            forall|v: u64| r@.contains(v) <==> (values_in(self.crashes.0@, address, *selector, reg_index)
                + values_in(self.non_crashes.0@, address, *selector, reg_index)).contains(v),
    {
        let values = self.values_at_address(address, selector, reg_index);
        let mut r: Vec<u64> = Vec::new();
        let mut k: usize = 0;
        while k < values.len()
            invariant
                k <= values@.len(),
                forall|i: int, j: int| 0 <= i < j < r@.len() ==> r@[i] < r@[j],
                forall|v: u64| r@.contains(v) <==> values@.subrange(0, k as int).contains(v),
            decreases values@.len() - k,
        {
            let v = values[k];
            let ghost pre = values@.subrange(0, k as int);
            assert(values@.subrange(0, k + 1) =~= pre.push(v));
            insert_sorted_unique(&mut r, v);
            proof {
                assert forall|x: u64| r@.contains(x) <==> values@.subrange(0, k + 1).contains(x) by {
                    if x == v {
                        assert(values@.subrange(0, k + 1)[k as int] == v);
                    } else if pre.contains(x) {
                        let i = choose|i: int| 0 <= i < pre.len() && pre[i] == x;
                        assert(values@.subrange(0, k + 1)[i] == x);
                    } else if values@.subrange(0, k + 1).contains(x) {
                        let s1 = values@.subrange(0, k + 1);
                        let i = choose|i: int| 0 <= i < s1.len() && s1[i] == x;
                        assert(pre[i] == x);
                    }
                }
            }
            k = k + 1;
        }
        assert(values@.subrange(0, values@.len() as int) =~= values@);
        r
    }

    /// Whether the trace counts allow exact scores.
    pub fn is_scorable(&self) -> (r: bool)
        ensures
            r == self.scorable(),
    {
        let nc = self.crashes.len() as u64;
        let nn = self.non_crashes.len() as u64;
        if nc == 0 || nn == 0 {
            return false;
        }
        let p = crate::predicates::mul_wide(nc, nn);
        proof {
            assert(2 * (nc as int) * (nn as int) == 2 * ((nc as int) * (nn as int))) by (nonlinear_arith);
        }
        p <= 0x7fff_ffff_ffff_ffff
    }

    /// Builds the joint control-flow graph from the successor edges of every
    /// instruction of every trace. Returns false, leaving the graph as it
    /// was, when the edges do not have exactly one head.
    pub fn fill_cfg(&mut self) -> (r: bool)
        requires
            old(self).wf(),
        ensures
            final(self).wf(),
            final(self).crashes.0@ == old(self).crashes.0@,
            final(self).non_crashes.0@ == old(self).non_crashes.0@,
            final(self).memory_addresses == old(self).memory_addresses,
            final(self).address_scores@ == old(self).address_scores@,
            !r ==> final(self).cfg == old(self).cfg,
            r ==> cfg_spans_edges(*final(self)),
            r <==> exists|h: usize| is_entry(*old(self), h) && forall|g: usize| is_entry(*old(self), g) ==> g == h,
    {
        let mut collector = CFGCollector::new();
        collect_edges(&self.crashes.0, &mut collector);
        let ghost mid = collector;
        collect_edges(&self.non_crashes.0, &mut collector);
        let ghost c = collector;
        proof {
            assert forall|x: usize, y: usize| #[trigger] c.edge(x, y) == joint_edge(*self, x, y) by {
                assert(mid.edge(x, y) == trace_edge(self.crashes.0@, x, y));
            }
            lemma_entry_is_head(*self, c);
        }
        match collector.construct_graph() {
            Some(cfg) => {
                self.cfg = cfg;
                proof {
                    let n = c.nodes@.len() as int;
                    let head = c.heads_upto(n)[0];
                    assert(c.nodes@.contains(head));
                    assert(endpoint(c, head));
                    let y = choose|y: usize| c.edge(head, y) || c.edge(y, head);
                    assert(joint_edge(*self, head, y) || joint_edge(*self, y, head));
                    assert forall|x: usize| !joint_edge(*self, x, head) by {
                        assert(!c.edge(x, head));
                    }
                    assert(is_entry(*self, head));
                    assert forall|a: usize, b: usize| self.cfg.addresses().contains(a) && joint_edge(*self, a, b)
                        implies self.cfg.addresses().contains(b) by {
                        assert(c.edge(a, b));
                    }
                    assert forall|a: usize| self.cfg.addresses().contains(a)
                        implies exists|y: usize| joint_edge(*self, a, y) || joint_edge(*self, y, a) by {
                        assert(c.nodes@.contains(a));
                        assert(endpoint(c, a));
                        let y = choose|y: usize| c.edge(a, y) || c.edge(y, a);
                        assert(joint_edge(*self, a, y) || joint_edge(*self, y, a));
                    }
                }
                true
            }
            None => false,
        }
    }

    /// Scores every address that some trace visits, keeping the best
    /// predicate of each, in the order of `address_union`.
    pub fn fill_address_scores(&mut self)
        requires
            old(self).wf(),
            old(self).scorable(),
        ensures
            final(self).wf(),
            final(self).crashes.0@ == old(self).crashes.0@,
            final(self).non_crashes.0@ == old(self).non_crashes.0@,
            final(self).cfg == old(self).cfg,
            forall|i: int| 0 <= i < final(self).address_scores@.len() ==> {
                let p = #[trigger] final(self).address_scores@[i];
                &&& p.wf()
                &&& visited_by_any(final(self).crashes.0@, p.address) || visited_by_any(final(self).non_crashes.0@, p.address)
                &&& p.score == crate::predicate_analysis::balanced_score(p, final(self).crashes.0@, final(self).non_crashes.0@)
            },
            forall|a: usize| visited_by_any(final(self).crashes.0@, a) || visited_by_any(final(self).non_crashes.0@, a)
                ==> exists|i: int| 0 <= i < final(self).address_scores@.len()
                    && (#[trigger] final(self).address_scores@[i]).address == a,
    {
        let addresses = self.address_union();
        let mut scores: Vec<Predicate> = Vec::new();
        let mut k: usize = 0;
        while k < addresses.len()
            invariant
                self.wf(),
                self.scorable(),
                k <= addresses@.len(),
                forall|a: usize| addresses@.contains(a)
                    <==> visited_by_any(self.crashes.0@, a) || visited_by_any(self.non_crashes.0@, a),
                forall|i: int| 0 <= i < scores@.len() ==> {
                    let p = #[trigger] scores@[i];
                    &&& p.wf()
                    &&& visited_by_any(self.crashes.0@, p.address) || visited_by_any(self.non_crashes.0@, p.address)
                    &&& p.score == crate::predicate_analysis::balanced_score(p, self.crashes.0@, self.non_crashes.0@)
                },
                scores@.len() == k,
                forall|i: int| 0 <= i < k ==> (#[trigger] scores@[i]).address == addresses@[i],
            decreases addresses@.len() - k,
        {
            let a = addresses[k];
            assert(addresses@.contains(a));
            let best = crate::predicate_analysis::PredicateAnalyzer::evaluate_best_predicate_at_address(a, self);
            scores.push(best);
            k = k + 1;
        }
        proof {
            assert forall|a: usize| visited_by_any(self.crashes.0@, a) || visited_by_any(self.non_crashes.0@, a)
                implies exists|i: int| 0 <= i < scores@.len() && (#[trigger] scores@[i]).address == a by {
                assert(addresses@.contains(a));
                let i = choose|i: int| 0 <= i < addresses@.len() && addresses@[i] == a;
                assert(scores@[i].address == a);
            }
        }
        self.address_scores = scores;
    }

    /// The exported form of each best predicate scoring strictly above
    /// `min_num / min_den`.
    #[verifier::rlimit(50)]
    pub fn get_predicates_better_than(&self, min_num: u64, min_den: u64) -> (r: Vec<SerializedPredicate>)
        ensures
            r@.len() <= self.address_scores@.len(),
            forall|i: int| 0 <= i < r@.len() ==> exported_from(#[trigger] r@[i], self.address_scores@, self.address_scores@.len() as int),
            forall|i: int| 0 <= i < r@.len() ==> ((#[trigger] r@[i]).score.num as int) * (min_den as int)
                > (min_num as int) * (r@[i].score.den as int),
            forall|j: int| 0 <= j < self.address_scores@.len()
                && ((#[trigger] self.address_scores@[j]).score.num as int) * (min_den as int)
                    > (min_num as int) * (self.address_scores@[j].score.den as int)
                ==> exists|i: int| 0 <= i < r@.len() && r@[i].address == self.address_scores@[j].address
                    && r@[i].score == self.address_scores@[j].score,
    {
        let mut r: Vec<SerializedPredicate> = Vec::new();
        let mut k: usize = 0;
        while k < self.address_scores.len()
            invariant
                k <= self.address_scores@.len(),
                r@.len() <= k,
                forall|i: int| 0 <= i < r@.len() ==> exported_from(#[trigger] r@[i], self.address_scores@, k as int),
                forall|i: int| 0 <= i < r@.len() ==> ((#[trigger] r@[i]).score.num as int) * (min_den as int)
                    > (min_num as int) * (r@[i].score.den as int),
                forall|j: int| 0 <= j < k
                    && ((#[trigger] self.address_scores@[j]).score.num as int) * (min_den as int)
                        > (min_num as int) * (self.address_scores@[j].score.den as int)
                    ==> exists|i: int| 0 <= i < r@.len() && r@[i].address == self.address_scores@[j].address
                        && r@[i].score == self.address_scores@[j].score,
            decreases self.address_scores@.len() - k,
        {
            let p = &self.address_scores[k];
            if p.score.above(min_num, min_den) {
                let ghost before = r@;
                r.push(p.to_serialzed());
                proof {
                    assert forall|i: int| 0 <= i < r@.len() implies exported_from(#[trigger] r@[i], self.address_scores@, k + 1) by {
                        if i < before.len() {
                            assert(r@[i] == before[i]);
                            assert(exported_from(before[i], self.address_scores@, k as int));
                            let j = choose|j: int| 0 <= j < k && #[trigger] exports(before[i], self.address_scores@[j]);
                            assert(exports(r@[i], self.address_scores@[j]));
                        } else {
                            assert(exports(r@[i], self.address_scores@[k as int]));
                        }
                    }
                    assert forall|j: int| 0 <= j < k + 1
                        && ((#[trigger] self.address_scores@[j]).score.num as int) * (min_den as int)
                            > (min_num as int) * (self.address_scores@[j].score.den as int)
                        implies exists|i: int| 0 <= i < r@.len() && r@[i].address == self.address_scores@[j].address
                            && r@[i].score == self.address_scores@[j].score by {
                        if j < k {
                            let i = choose|i: int| 0 <= i < before.len() && before[i].address == self.address_scores@[j].address
                                && before[i].score == self.address_scores@[j].score;
                            assert(r@[i] == before[i]);
                        } else {
                            assert(r@[r@.len() - 1].address == self.address_scores@[j].address);
                        }
                    }
                }
            }
            k = k + 1;
        }
        r
    }

    /// The exported best predicates, ordered by ascending score; equal
    /// scores keep their order.
    pub fn sort_scores(&self) -> (r: Vec<SerializedPredicate>)
        requires
            forall|i: int| 0 <= i < self.address_scores@.len() ==> (#[trigger] self.address_scores@[i]).score.den > 0,
        ensures
            r@.len() == self.address_scores@.len(),
            r@.map_values(|x: SerializedPredicate| export_key(x)).to_multiset()
                == self.address_scores@.map_values(|p: Predicate| predicate_key(p)).to_multiset(),
            forall|i: int, j: int| 0 <= i < j < r@.len() ==> !score_lt(r@[j].score, r@[i].score),
            forall|i: int| 0 <= i < r@.len() ==> exported_from(#[trigger] r@[i], self.address_scores@, self.address_scores@.len() as int),
    {
        let mut r: Vec<SerializedPredicate> = Vec::new();
        let mut k: usize = 0;
        proof {
            assert(r@.map_values(|x: SerializedPredicate| export_key(x)) =~= Seq::<(usize, Score, Seq<char>)>::empty());
            assert(self.address_scores@.subrange(0, 0).map_values(|p: Predicate| predicate_key(p))
                =~= Seq::<(usize, Score, Seq<char>)>::empty());
        }
        while k < self.address_scores.len()
            invariant
                k <= self.address_scores@.len(),
                r@.len() == k,
                r@.map_values(|x: SerializedPredicate| export_key(x)).to_multiset()
                    == self.address_scores@.subrange(0, k as int).map_values(|p: Predicate| predicate_key(p)).to_multiset(),
                forall|i: int, j: int| 0 <= i < j < r@.len() ==> !score_lt(r@[j].score, r@[i].score),
                forall|i: int| 0 <= i < self.address_scores@.len() ==> (#[trigger] self.address_scores@[i]).score.den > 0,
                forall|i: int| 0 <= i < r@.len() ==> (#[trigger] r@[i]).score.den > 0,
                forall|i: int| 0 <= i < r@.len() ==> exported_from(#[trigger] r@[i], self.address_scores@, k as int),
            decreases self.address_scores@.len() - k,
        {
            let x = self.address_scores[k].to_serialzed();
            let mut j: usize = 0;
            while j < r.len() && !x.score.less_than(&r[j].score)
                invariant
                    j <= r@.len(),
                    forall|m: int| 0 <= m < j ==> !score_lt(x.score, #[trigger] r@[m].score),
                decreases r@.len() - j,
            {
                j = j + 1;
            }
            let ghost before = r@;
            assert(j < before.len() ==> score_lt(x.score, before[j as int].score));
            proof {
                let rk = before.map_values(|y: SerializedPredicate| export_key(y));
                vstd::seq_lib::to_multiset_insert(rk, j as int, export_key(x));
                let pk = self.address_scores@.subrange(0, k as int).map_values(|p: Predicate| predicate_key(p));
                vstd::seq_lib::to_multiset_insert(pk, pk.len() as int, export_key(x));
                assert(pk.insert(pk.len() as int, export_key(x))
                    =~= self.address_scores@.subrange(0, k + 1).map_values(|p: Predicate| predicate_key(p)));
            }
            r.insert(j, x);
            proof {
                assert(r@.map_values(|y: SerializedPredicate| export_key(y))
                    =~= before.map_values(|y: SerializedPredicate| export_key(y)).insert(j as int, export_key(x)));
                assert(exports(x, self.address_scores@[k as int]));
                assert forall|i: int| 0 <= i < r@.len() implies (#[trigger] r@[i]).score.den > 0 by {
                    if i < j {
                        assert(r@[i] == before[i]);
                    } else if i > j {
                        assert(r@[i] == before[i - 1]);
                    }
                }
                assert forall|a: int, b: int| 0 <= a < b < r@.len() implies !score_lt(r@[b].score, r@[a].score) by {
                    if b < j {
                        assert(r@[a] == before[a] && r@[b] == before[b]);
                        assert(!score_lt(before[b].score, before[a].score));
                    } else if a < j && b == j {
                        assert(r@[a] == before[a]);
                        assert(r@[b] == x);
                        assert(!score_lt(x.score, before[a].score));
                    } else if a < j && b > j {
                        assert(r@[a] == before[a] && r@[b] == before[b - 1]);
                        assert(!score_lt(before[b - 1].score, before[a].score));
                    } else if a == j {
                        assert(r@[a] == x);
                        assert(r@[b] == before[b - 1]);
                        let y = before[j as int].score;
                        assert(score_lt(x.score, y));
                        if b - 1 > j {
                            let z = before[b - 1].score;
                            crate::predicate_analysis::lemma_score_lt_le(x.score, y, z);
                        }
                    } else {
                        assert(r@[a] == before[a - 1] && r@[b] == before[b - 1]);
                        assert(!score_lt(before[b - 1].score, before[a - 1].score));
                    }
                }
                assert forall|i: int| 0 <= i < r@.len() implies exported_from(#[trigger] r@[i], self.address_scores@, k + 1) by {
                    if i < j {
                        assert(r@[i] == before[i]);
                        assert(exported_from(before[i], self.address_scores@, k as int));
                        let m = choose|m: int| 0 <= m < k && #[trigger] exports(before[i], self.address_scores@[m]);
                        assert(exports(r@[i], self.address_scores@[m]));
                    } else if i == j {
                        assert(exports(r@[i], self.address_scores@[k as int]));
                    } else {
                        assert(r@[i] == before[i - 1]);
                        assert(exported_from(before[i - 1], self.address_scores@, k as int));
                        let m = choose|m: int| 0 <= m < k && #[trigger] exports(before[i - 1], self.address_scores@[m]);
                        assert(exports(r@[i], self.address_scores@[m]));
                    }
                }
            }
            k = k + 1;
        }
        assert(self.address_scores@.subrange(0, k as int) =~= self.address_scores@);
        r
    }
}

/// Whether some trace of `ts` records register `reg` in the minimum map at `a`.
fn any_trace_records(ts: &Vec<Trace>, a: usize, reg: usize) -> (r: bool)
    ensures
        r == any_records(ts@, a, reg),
{
    let mut i: usize = 0;
    while i < ts.len()
        invariant
            i <= ts@.len(),
            forall|j: int| 0 <= j < i ==> !match #[trigger] instr_at(ts@[j], a) {
                Some(instr) => instr.registers_min.view().contains_key(reg),
                None => false,
            },
        decreases ts@.len() - i,
    {
        match ts[i].instructions.get(&a) {
            Some(instr) => {
                if instr.registers_min.get(reg).is_some() {
                    assert(match instr_at(ts@[i as int], a) {
                        Some(instr) => instr.registers_min.view().contains_key(reg),
                        None => false,
                    });
                    return true;
                }
            }
            None => {}
        }
        i = i + 1;
    }
    false
}

/// The position of the first trace of `ts` that visits `a`.
pub open spec fn first_visit(ts: Seq<Trace>, a: usize) -> int {
    choose|i: int| 0 <= i < ts.len() && ts[i].instructions@.contains_key(a)
        && forall|j: int| 0 <= j < i ==> !(#[trigger] ts[j]).instructions@.contains_key(a)
}

/// The mnemonic at `a` in the first trace that visits it, crash traces
/// first.
pub open spec fn any_mnemonic(t: TraceAnalyzer, a: usize) -> Seq<char> {
    if visited_by_any(t.crashes.0@, a) {
        t.crashes.0@[first_visit(t.crashes.0@, a)].instructions@[a].mnemonic@
    } else {
        t.non_crashes.0@[first_visit(t.non_crashes.0@, a)].instructions@[a].mnemonic@
    }
}

/// The mnemonic at `a` in the first trace of `ts` that visits it.
fn first_mnemonic(ts: &Vec<Trace>, a: usize) -> (r: Option<String>)
    ensures
        r.is_none() ==> !visited_by_any(ts@, a),
        r.is_some() ==> visited_by_any(ts@, a) && r->0@ == ts@[first_visit(ts@, a)].instructions@[a].mnemonic@,
{
    let mut i: usize = 0;
    while i < ts.len()
        invariant
            i <= ts@.len(),
            forall|j: int| 0 <= j < i ==> !(#[trigger] ts@[j]).instructions@.contains_key(a),
        decreases ts@.len() - i,
    {
        match ts[i].instructions.get(&a) {
            Some(instr) => {
                proof {
                    let f = first_visit(ts@, a);
                    assert(ts@[i as int].instructions@.contains_key(a));
                    if f < i {
                        assert(!ts@[f].instructions@.contains_key(a));
                    } else if f > i {
                        assert(!ts@[i as int].instructions@.contains_key(a));
                    }
                }
                return Some(instr.mnemonic.clone());
            }
            None => {}
        }
        i = i + 1;
    }
    None
}

/// The values of register `reg` that `selector` reads at `a`, trace by trace.
fn trace_values(ts: &Vec<Trace>, a: usize, selector: &Selector, reg: usize) -> (r: Vec<u64>)
    ensures
        r@ == values_in(ts@, a, *selector, reg),
{
    let mut r: Vec<u64> = Vec::new();
    let mut i: usize = 0;
    while i < ts.len()
        invariant
            i <= ts@.len(),
            r@ == values_in(ts@.subrange(0, i as int), a, *selector, reg),
        decreases ts@.len() - i,
    {
        proof {
            let s1 = ts@.subrange(0, i + 1);
            assert(s1.drop_last() =~= ts@.subrange(0, i as int));
            assert(s1.last() == ts@[i as int]);
        }
        match ts[i].instructions.get(&a) {
            Some(instr) => {
                let regs = if *selector == Selector::RegMax { &instr.registers_max } else { &instr.registers_min };
                match regs.get(reg) {
                    Some(v) => r.push(v.value),
                    None => {}
                }
            }
            None => {}
        }
        i = i + 1;
    }
    assert(ts@.subrange(0, ts@.len() as int) =~= ts@);
    r
}

/// Inserts `v` into the strictly ascending list `r` unless it is there.
fn insert_sorted_unique(r: &mut Vec<u64>, v: u64)
    requires
        forall|i: int, j: int| 0 <= i < j < old(r)@.len() ==> old(r)@[i] < old(r)@[j],
    ensures
        forall|i: int, j: int| 0 <= i < j < final(r)@.len() ==> final(r)@[i] < final(r)@[j],
        forall|x: u64| final(r)@.contains(x) <==> old(r)@.contains(x) || x == v,
{
    let mut j: usize = 0;
    while j < r.len() && r[j] < v
        invariant
            r@ == old(r)@,
            j <= r@.len(),
            forall|i: int| 0 <= i < j ==> r@[i] < v,
        decreases r@.len() - j,
    {
        j = j + 1;
    }
    if j < r.len() && r[j] == v {
        assert(r@[j as int] == v);
        assert(r@.contains(v));
        return;
    }
    let ghost before = r@;
    assert(before == old(r)@);
    r.insert(j, v);
    proof {
        assert forall|x: u64| r@.contains(x) <==> before.contains(x) || x == v by {
            if r@.contains(x) {
                let i = choose|i: int| 0 <= i < r@.len() && r@[i] == x;
                if i < j {
                    assert(before[i] == x);
                } else if i > j {
                    assert(before[i - 1] == x);
                }
            }
            if before.contains(x) {
                let i = choose|i: int| 0 <= i < before.len() && before[i] == x;
                if i < j {
                    assert(r@[i] == x);
                } else {
                    assert(r@[i + 1] == x);
                }
            }
            if x == v {
                assert(r@[j as int] == v);
            }
        }
        assert(forall|x: u64| #[trigger] r@.contains(x) <==> old(r)@.contains(x) || x == v);
    }
}

} // verus!

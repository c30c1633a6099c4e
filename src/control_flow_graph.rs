//! The control-flow graph: per-address successor and predecessor sets
//! collected from all traces, grouped into basic blocks by a depth-first
//! walk from the single entry.
use std::collections::{HashMap, HashSet};
use vstd::prelude::*;
use crate::text::{dec_seq, dec_string, push_str};

verus! {

broadcast use vstd::std_specs::hash::group_hash_axioms;

/// Adds `x` to the duplicate-free list `v` unless it is there already.
pub fn insert_unique(v: &mut Vec<usize>, x: usize)
    requires
        old(v)@.no_duplicates(),
    ensures
        final(v)@.no_duplicates(),
        final(v)@.to_set() == old(v)@.to_set().insert(x),
        old(v)@.contains(x) ==> final(v)@ == old(v)@,
        !old(v)@.contains(x) ==> final(v)@ == old(v)@.push(x),
{
    if !list_contains(v, x) {
        let ghost before = v@;
        v.push(x);
        proof {
            assert forall|i: int, j: int| 0 <= i < j < v@.len() implies v@[i] != v@[j] by {
                if j == v@.len() - 1 {
                    assert(before[i] == v@[i]);
                }
            }
            assert(v@.to_set() =~= before.to_set().insert(x)) by {
                assert forall|y: usize| v@.to_set().contains(y) <==> before.to_set().insert(x).contains(y) by {
                    if v@.contains(y) && y != x {
                        let k = choose|k: int| 0 <= k < v@.len() && v@[k] == y;
                        assert(before[k] == y);
                    }
                    if before.contains(y) {
                        let k = choose|k: int| 0 <= k < before.len() && before[k] == y;
                        assert(v@[k] == y);
                    }
                    if y == x {
                        assert(v@[v@.len() - 1] == x);
                    }
                }
            }
        }
    }
}

/// Adds every entry of `s` to the duplicate-free list `v`.
pub fn add_all(v: &mut Vec<usize>, s: &Vec<usize>)
    requires
        old(v)@.no_duplicates(),
    ensures
        final(v)@.no_duplicates(),
        final(v)@.to_set() == old(v)@.to_set().union(s@.to_set()),
{
    let mut j: usize = 0;
    while j < s.len()
        invariant
            v@.no_duplicates(),
            j <= s@.len(),
            v@.to_set() == old(v)@.to_set().union(s@.subrange(0, j as int).to_set()),
        decreases s@.len() - j,
    {
        insert_unique(v, s[j]);
        proof {
            let a = s@.subrange(0, j as int);
            assert(s@.subrange(0, j + 1) =~= a.push(s@[j as int]));
            a.lemma_push_to_set_commute(s@[j as int]);
            assert(v@.to_set() =~= old(v)@.to_set().union(s@.subrange(0, j + 1).to_set()));
        }
        j = j + 1;
    }
    assert(s@.subrange(0, s@.len() as int) =~= s@);
}

/// Whether `x` is in `v`.
pub fn list_contains(v: &Vec<usize>, x: usize) -> (r: bool)
    ensures
        r == v@.contains(x),
{
    let mut k: usize = 0;
    while k < v.len()
        invariant
            k <= v@.len(),
            forall|j: int| 0 <= j < k ==> v@[j] != x,
        decreases v@.len() - k,
    {
        if v[k] == x {
            assert(v@[k as int] == x);
            return true;
        }
        k = k + 1;
    }
    false
}

/// A copy of `v`.
pub fn copy_list(v: &Vec<usize>) -> (r: Vec<usize>)
    ensures
        r@ == v@,
{
    let mut r: Vec<usize> = Vec::new();
    let mut k: usize = 0;
    while k < v.len()
        invariant
            k <= v@.len(),
            r@ == v@.subrange(0, k as int),
        decreases v@.len() - k,
    {
        r.push(v[k]);
        assert(v@.subrange(0, k + 1) =~= v@.subrange(0, k as int).push(v@[k as int]));
        k = k + 1;
    }
    assert(v@.subrange(0, v@.len() as int) =~= v@);
    r
}

/// Adding a block of fresh addresses to a partitioned graph keeps it
/// partitioned.
pub proof fn lemma_add_bb_partitioned(g0: ControlFlowGraph, g1: ControlFlowGraph, bb: BasicBlock)
    requires
        g0.wf(),
        g0.partitioned(),
        bb.body@.len() > 0,
        forall|x: usize| #[trigger] bb.body@.contains(x) ==> !g0.addresses().contains(x),
        g1.addresses() == g0.addresses().union(bb.body@.to_set()),
        g1.exit_addr_to_bb@ == g0.exit_addr_to_bb@.insert(bb.body@.last(), bb),
        forall|a: usize| #[trigger] bb.body@.contains(a) ==> g1.addr_to_bb_exit@[a] == bb.body@.last(),
        forall|a: usize| #[trigger] g0.addresses().contains(a) && !bb.body@.contains(a)
            ==> g1.addr_to_bb_exit@[a] == g0.addr_to_bb_exit@[a],
    ensures
        g1.partitioned(),
{
    let exit = bb.body@.last();
    assert(bb.body@.contains(exit));
    assert(!g0.exit_addr_to_bb@.contains_key(exit)) by {
        if g0.exit_addr_to_bb@.contains_key(exit) {
            let b = g0.exit_addr_to_bb@[exit];
            assert(b.body@.contains(b.body@.last()));
            assert(g0.addresses().contains(exit));
        }
    }
    assert forall|a: usize| #[trigger] g1.addresses().contains(a)
        implies g1.exit_addr_to_bb@.contains_key(g1.addr_to_bb_exit@[a])
            && g1.exit_addr_to_bb@[g1.addr_to_bb_exit@[a]].body@.contains(a) by {
        if bb.body@.contains(a) {
        } else {
            assert(g0.addresses().contains(a));
            let e = g0.addr_to_bb_exit@[a];
            assert(e != exit);
        }
    }
    assert forall|e: usize, x: usize| g1.exit_addr_to_bb@.contains_key(e) && #[trigger] g1.exit_addr_to_bb@[e].body@.contains(x)
        implies g1.addresses().contains(x) && g1.addr_to_bb_exit@[x] == e by {
        if e == exit {
            assert(bb.body@.to_set().contains(x));
        } else {
            assert(g0.exit_addr_to_bb@[e].body@.contains(x));
            assert(g0.addresses().contains(x));
            assert(!bb.body@.contains(x));
        }
    }
}

/// Whether some entry of `earlier` has an edge to `x`.
pub open spec fn reached_from(c: &CFGCollector, earlier: Seq<usize>, x: usize) -> bool {
    exists|j: int| 0 <= j < earlier.len() && c.edge(earlier[j], x)
}

/// A maximal straight-line run of addresses.
#[derive(Debug)]
pub struct BasicBlock {
    pub body: Vec<usize>,
    pub successors: Vec<usize>,
    pub predecessors: Vec<usize>,
}

impl BasicBlock {
    pub open spec fn wf(&self) -> bool {
        self.successors@.no_duplicates() && self.predecessors@.no_duplicates()
    }

    /// An empty block.
    pub fn new() -> (r: BasicBlock)
        ensures
            r.body@.len() == 0,
            r.successors@.len() == 0,
            r.predecessors@.len() == 0,
            r.wf(),
    {
        BasicBlock { body: Vec::new(), successors: Vec::new(), predecessors: Vec::new() }
    }

    /// The leading address.
    pub fn start(&self) -> (r: usize)
        requires
            self.body@.len() > 0,
        ensures
            r == self.body@[0],
    {
        self.body[0]
    }

    /// The terminal address.
    pub fn exit(&self) -> (r: usize)
        requires
            self.body@.len() > 0,
        ensures
            r == self.body@.last(),
    {
        self.body[self.body.len() - 1]
    }

    /// The addresses of the block, in order.
    pub fn iter_addresses(&self) -> (r: &Vec<usize>)
        ensures
            r@ == self.body@,
    {
        &self.body
    }
}

/// Basic blocks keyed by their exit address, and each address mapped to
/// the exit of its block.
#[derive(Debug)]
pub struct ControlFlowGraph {
    pub addr_to_bb_exit: HashMap<usize, usize>,
    pub exit_addr_to_bb: HashMap<usize, BasicBlock>,
    /// The keys of `exit_addr_to_bb`, each once, in order of insertion.
    pub exits: Vec<usize>,
    /// The keys of `addr_to_bb_exit`, each once, in order of insertion.
    pub address_list: Vec<usize>,
}

impl ControlFlowGraph {
    pub open spec fn wf(&self) -> bool {
        &&& self.address_list@.no_duplicates()
        &&& self.address_list@.to_set() == self.addr_to_bb_exit@.dom()
        &&& self.exits@.no_duplicates()
        &&& forall|e: usize| self.exit_addr_to_bb@.contains_key(e) <==> self.exits@.contains(e)
        &&& forall|e: usize| #[trigger] self.exit_addr_to_bb@.contains_key(e)
            ==> self.exit_addr_to_bb@[e].body@.len() > 0 && self.exit_addr_to_bb@[e].body@.last() == e
                && self.exit_addr_to_bb@[e].wf()
    }

    /// Every address lies in the body of the block that its exit names, and
    /// every body address maps to its block's exit.
    pub open spec fn partitioned(&self) -> bool {
        &&& forall|a: usize| #[trigger] self.addresses().contains(a)
            ==> self.exit_addr_to_bb@.contains_key(self.addr_to_bb_exit@[a])
                && self.exit_addr_to_bb@[self.addr_to_bb_exit@[a]].body@.contains(a)
        &&& forall|e: usize, x: usize| self.exit_addr_to_bb@.contains_key(e) && #[trigger] self.exit_addr_to_bb@[e].body@.contains(x)
            ==> self.addresses().contains(x) && self.addr_to_bb_exit@[x] == e
    }

    /// The set of addresses that belong to some block.
    pub open spec fn addresses(&self) -> Set<usize> {
        self.addr_to_bb_exit@.dom()
    }

    pub fn new() -> (r: ControlFlowGraph)
        ensures
            r.wf(),
            r.addresses() == Set::<usize>::empty(),
            r.exit_addr_to_bb@ == Map::<usize, BasicBlock>::empty(),
            r.partitioned(),
    {
        let r = ControlFlowGraph {
            addr_to_bb_exit: HashMap::new(),
            exit_addr_to_bb: HashMap::new(),
            exits: Vec::new(),
            address_list: Vec::new(),
        };
        assert(r.address_list@.to_set() =~= r.addr_to_bb_exit@.dom());
        r
    }

    pub fn is_empty(&self) -> (r: bool)
        ensures
            r == self.exit_addr_to_bb@.is_empty(),
    {
        self.exit_addr_to_bb.is_empty()
    }

    /// The addresses of all blocks, each once, in order of insertion.
    pub fn keys(&self) -> (r: Vec<usize>)
        requires
            self.wf(),
        ensures
            r@.no_duplicates(),
            r@.to_set() == self.addresses(),
    {
        copy_list(&self.address_list)
    }

    /// The successor addresses of the block that ends at `address`; empty
    /// when no block ends there.
    pub fn get_instruction_successors(&self, address: usize) -> (r: Vec<usize>)
        ensures
            self.exit_addr_to_bb@.contains_key(address) ==> r@ == self.exit_addr_to_bb@[address].successors@,
            !self.exit_addr_to_bb@.contains_key(address) ==> r@.len() == 0,
    {
        match self.exit_addr_to_bb.get(&address) {
            Some(bb) => copy_list(&bb.successors),
            None => Vec::new(),
        }
    }

    /// Whether a block ends at `address`.
    pub fn is_bb_end(&self, address: usize) -> (r: bool)
        ensures
            r == self.exit_addr_to_bb@.contains_key(address),
    {
        self.exit_addr_to_bb.contains_key(&address)
    }

    /// Adds a block; its addresses now lead to its exit.
    pub fn add_bb(&mut self, bb: BasicBlock)
        requires
            old(self).wf(),
            bb.body@.len() > 0,
            bb.wf(),
        ensures
            final(self).wf(),
            final(self).addresses() == old(self).addresses().union(bb.body@.to_set()),
            final(self).exit_addr_to_bb@ == old(self).exit_addr_to_bb@.insert(bb.body@.last(), bb),
            forall|a: usize| #[trigger] bb.body@.contains(a) ==> final(self).addr_to_bb_exit@[a] == bb.body@.last(),
            forall|a: usize| #[trigger] old(self).addresses().contains(a) && !bb.body@.contains(a)
                ==> final(self).addr_to_bb_exit@[a] == old(self).addr_to_bb_exit@[a],
    {
        let exit = bb.exit();
        let mut k: usize = 0;
        while k < bb.body.len()
            invariant
                k <= bb.body@.len(),
                exit == bb.body@.last(),
                self.exit_addr_to_bb@ == old(self).exit_addr_to_bb@,
                self.exits@ == old(self).exits@,
                self.address_list@.no_duplicates(),
                self.address_list@.to_set() == self.addr_to_bb_exit@.dom(),
                self.addresses() == old(self).addresses().union(bb.body@.subrange(0, k as int).to_set()),
                forall|j: int| 0 <= j < k ==> self.addr_to_bb_exit@[#[trigger] bb.body@[j]] == exit,
                forall|a: usize| #[trigger] old(self).addresses().contains(a) && !bb.body@.subrange(0, k as int).contains(a)
                    ==> self.addr_to_bb_exit@[a] == old(self).addr_to_bb_exit@[a],
            decreases bb.body@.len() - k,
        {
            let a = bb.body[k];
            if !self.addr_to_bb_exit.contains_key(&a) {
                insert_unique(&mut self.address_list, a);
            }
            self.addr_to_bb_exit.insert(a, exit);
            proof {
                let s0 = bb.body@.subrange(0, k as int);
                let s1 = bb.body@.subrange(0, k + 1);
                assert(s1 =~= s0.push(a));
                assert(s1.to_set() =~= s0.to_set().insert(a)) by {
                    assert forall|y: usize| s1.to_set().contains(y) <==> s0.to_set().insert(y).contains(y) && (s0.contains(y) || y == a) by {
                        if s1.contains(y) && y != a {
                            let i = choose|i: int| 0 <= i < s1.len() && s1[i] == y;
                            assert(s0[i] == y);
                        }
                        if s0.contains(y) {
                            let i = choose|i: int| 0 <= i < s0.len() && s0[i] == y;
                            assert(s1[i] == y);
                        }
                        if y == a {
                            assert(s1[k as int] == a);
                        }
                    }
                }
                assert forall|j: int| 0 <= j < k + 1 implies self.addr_to_bb_exit@[#[trigger] bb.body@[j]] == exit by {}
                assert forall|b: usize| #[trigger] old(self).addresses().contains(b) && !s1.contains(b)
                    implies self.addr_to_bb_exit@[b] == old(self).addr_to_bb_exit@[b] by {
                    assert(b != a) by {
                        if b == a {
                            assert(s1[k as int] == a);
                        }
                    }
                    assert(!s0.contains(b)) by {
                        if s0.contains(b) {
                            let i = choose|i: int| 0 <= i < s0.len() && s0[i] == b;
                            assert(s1[i] == b);
                        }
                    }
                }
            }
            k = k + 1;
        }
        proof {
            assert(bb.body@.subrange(0, bb.body@.len() as int) =~= bb.body@);
            assert forall|a: usize| #[trigger] bb.body@.contains(a) implies self.addr_to_bb_exit@[a] == exit by {
                let i = choose|i: int| 0 <= i < bb.body@.len() && bb.body@[i] == a;
            }
        }
        if !self.exit_addr_to_bb.contains_key(&exit) {
            proof {
                assert(!self.exits@.contains(exit));
            }
            let ghost before = self.exits@;
            self.exits.push(exit);
            proof {
                assert forall|i: int, j: int| 0 <= i < j < self.exits@.len() implies self.exits@[i] != self.exits@[j] by {
                    if j == self.exits@.len() - 1 {
                        assert(before[i] == self.exits@[i]);
                    }
                }
            }
        }
        let ghost exits_now = self.exits@;
        self.exit_addr_to_bb.insert(exit, bb);
        proof {
            assert forall|e: usize| self.exit_addr_to_bb@.contains_key(e) <==> self.exits@.contains(e) by {
                if e == exit {
                    if !old(self).exit_addr_to_bb@.contains_key(exit) {
                        assert(self.exits@[self.exits@.len() - 1] == exit);
                    }
                } else if old(self).exits@.contains(e) {
                    let i = choose|i: int| 0 <= i < old(self).exits@.len() && old(self).exits@[i] == e;
                    assert(self.exits@[i] == e);
                } else if self.exits@.contains(e) {
                    let i = choose|i: int| 0 <= i < self.exits@.len() && self.exits@[i] == e;
                    assert(i < old(self).exits@.len());
                    assert(old(self).exits@[i] == e);
                }
            }
        }
    }

    /// The blocks, in order of insertion of their exits.
    pub fn bbs(&self) -> (r: Vec<&BasicBlock>)
        requires
            self.wf(),
        ensures
            r@.len() == self.exits@.len(),
            forall|k: int| 0 <= k < r@.len() ==> *r@[k] == self.exit_addr_to_bb@[self.exits@[k]],
    {
        let mut r: Vec<&BasicBlock> = Vec::new();
        let mut k: usize = 0;
        while k < self.exits.len()
            invariant
                self.wf(),
                k <= self.exits@.len(),
                r@.len() == k,
                forall|j: int| 0 <= j < k ==> *r@[j] == self.exit_addr_to_bb@[self.exits@[j]],
            decreases self.exits@.len() - k,
        {
            let e = self.exits[k];
            assert(self.exits@.contains(e));
            r.push(self.exit_addr_to_bb.get(&e).unwrap());
            k = k + 1;
        }
        r
    }

    /// The block that contains `addr`.
    pub fn get_bb(&self, addr: usize) -> (r: &BasicBlock)
        requires
            self.partitioned(),
            self.addresses().contains(addr),
        ensures
            *r == self.exit_addr_to_bb@[self.addr_to_bb_exit@[addr]],
            r.body@.contains(addr),
    {
        let exit = self.addr_to_bb_exit.get(&addr).unwrap();
        self.exit_addr_to_bb.get(exit).unwrap()
    }

    /// The starts of the blocks listed in `exits` below `n` whose
    /// predecessor set (or, with `by_successors`, successor set) is empty.
    pub open spec fn starts_without(&self, n: int, by_successors: bool) -> Seq<usize>
        decreases n,
    {
        if n <= 0 {
            Seq::empty()
        } else {
            let prev = self.starts_without(n - 1, by_successors);
            let bb = self.exit_addr_to_bb@[self.exits@[n - 1]];
            let empty = if by_successors { bb.successors@.len() == 0 } else { bb.predecessors@.len() == 0 };
            if empty { prev.push(bb.body@[0]) } else { prev }
        }
    }

    fn starts_of_blocks_without(&self, by_successors: bool) -> (r: Vec<usize>)
        requires
            self.wf(),
        ensures
            r@ == self.starts_without(self.exits@.len() as int, by_successors),
    {
        let mut r: Vec<usize> = Vec::new();
        let mut k: usize = 0;
        while k < self.exits.len()
            invariant
                self.wf(),
                k <= self.exits@.len(),
                r@ == self.starts_without(k as int, by_successors),
            decreases self.exits@.len() - k,
        {
            let e = self.exits[k];
            assert(self.exits@.contains(e));
            let bb = self.exit_addr_to_bb.get(&e).unwrap();
            let empty = if by_successors { bb.successors.len() == 0 } else { bb.predecessors.len() == 0 };
            if empty {
                r.push(bb.start());
            }
            k = k + 1;
        }
        r
    }

    /// The starts of the blocks without predecessors.
    pub fn heads(&self) -> (r: Vec<usize>)
        requires
            self.wf(),
        ensures
            r@ == self.starts_without(self.exits@.len() as int, false),
    {
        self.starts_of_blocks_without(false)
    }

    /// The starts of the blocks without successors.
    pub fn leaves(&self) -> (r: Vec<usize>)
        requires
            self.wf(),
        ensures
            r@ == self.starts_without(self.exits@.len() as int, true),
    {
        self.starts_of_blocks_without(true)
    }

    /// Dot lines for the first `n` successors of the block ending at `exit`,
    /// each naming the exit of the successor's block; successors outside the
    /// graph are left out.
    pub open spec fn dot_edges(&self, exit: usize, succs: Seq<usize>, n: int) -> Seq<char>
        decreases n,
    {
        if n <= 0 {
            Seq::empty()
        } else {
            let prev = self.dot_edges(exit, succs, n - 1);
            let t = succs[n - 1];
            if self.addr_to_bb_exit@.contains_key(t) {
                prev + dec_seq(exit as nat) + " -> "@ + dec_seq(self.addr_to_bb_exit@[t] as nat) + "\n"@
            } else {
                prev
            }
        }
    }

    /// Dot lines of the blocks listed in `exits` below `n`.
    pub open spec fn dot_blocks(&self, n: int) -> Seq<char>
        decreases n,
    {
        if n <= 0 {
            Seq::empty()
        } else {
            let e = self.exits@[n - 1];
            let bb = self.exit_addr_to_bb@[e];
            self.dot_blocks(n - 1) + self.dot_edges(e, bb.successors@, bb.successors@.len() as int)
        }
    }

    /// The block graph in dot format, one edge per line between block exits.
    pub fn to_dot(&self) -> (r: String)
        requires
            self.wf(),
        ensures
            r@ == "digraph {\n"@ + self.dot_blocks(self.exits@.len() as int) + "}\n"@,
    {
        let mut r = String::new();
        push_str(&mut r, "digraph {\n");
        let ghost head = r@;
        let mut k: usize = 0;
        while k < self.exits.len()
            invariant
                self.wf(),
                k <= self.exits@.len(),
                r@ == head + self.dot_blocks(k as int),
            decreases self.exits@.len() - k,
        {
            let e = self.exits[k];
            assert(self.exits@.contains(e));
            let bb = self.exit_addr_to_bb.get(&e).unwrap();
            let ghost before = r@;
            let mut j: usize = 0;
            while j < bb.successors.len()
                invariant
                    j <= bb.successors@.len(),
                    r@ == before + self.dot_edges(e, bb.successors@, j as int),
                decreases bb.successors@.len() - j,
            {
                let t = bb.successors[j];
                match self.addr_to_bb_exit.get(&t) {
                    Some(te) => {
                        let a = dec_string(e as u64);
                        push_str(&mut r, a.as_str());
                        push_str(&mut r, " -> ");
                        let b = dec_string(*te as u64);
                        push_str(&mut r, b.as_str());
                        push_str(&mut r, "\n");
                    }
                    None => {}
                }
                j = j + 1;
            }
            k = k + 1;
        }
        push_str(&mut r, "}\n");
        r
    }
}

/// Successor and predecessor sets of every address seen in an edge.
#[derive(Debug)]
pub struct CFGCollector {
    pub successors: HashMap<usize, Vec<usize>>,
    pub predecessors: HashMap<usize, Vec<usize>>,
    /// Every address seen, each once, in order of first appearance.
    pub nodes: Vec<usize>,
}

/// A duplicate-free list has at most as many entries as any finite set
/// that holds all of them.
proof fn lemma_unique_list_bounded(list: Seq<usize>, nodes: Seq<usize>, extra: usize)
    requires
        list.no_duplicates(),
        forall|a: usize| list.contains(a) ==> a == extra || nodes.contains(a),
    ensures
        list.len() <= nodes.len() + 1,
{
    list.unique_seq_to_set();
    nodes.lemma_cardinality_of_set();
    let big = nodes.to_set().insert(extra);
    assert(list.to_set().subset_of(big));
    vstd::set_lib::lemma_len_subset(list.to_set(), big);
}

impl CFGCollector {
    pub open spec fn wf(&self) -> bool {
        &&& self.nodes@.no_duplicates()
        &&& forall|a: usize| self.successors@.contains_key(a) <==> self.nodes@.contains(a)
        &&& forall|a: usize| self.predecessors@.contains_key(a) <==> self.nodes@.contains(a)
        &&& forall|a: usize| #[trigger] self.successors@.contains_key(a) ==> self.successors@[a]@.no_duplicates()
        &&& forall|a: usize| #[trigger] self.predecessors@.contains_key(a) ==> self.predecessors@[a]@.no_duplicates()
        &&& forall|a: usize, b: usize| #[trigger] self.edge(a, b) ==> self.nodes@.contains(b)
        &&& forall|a: usize, b: usize| #[trigger] self.edge(a, b) ==> self.predecessors@[b]@.contains(a)
        &&& forall|a: usize, b: usize| self.predecessors@.contains_key(b) && #[trigger] self.predecessors@[b]@.contains(a)
            ==> self.edge(a, b)
    }

    /// Whether the edge `a -> b` was added.
    pub open spec fn edge(&self, a: usize, b: usize) -> bool {
        self.successors@.contains_key(a) && self.successors@[a]@.contains(b)
    }

    pub fn new() -> (r: CFGCollector)
        ensures
            r.wf(),
            r.nodes@.len() == 0,
            forall|x: usize, y: usize| !r.edge(x, y),
    {
        CFGCollector { successors: HashMap::new(), predecessors: HashMap::new(), nodes: Vec::new() }
    }

    fn ensure_node(&mut self, a: usize)
        requires
            old(self).wf(),
        ensures
            final(self).wf(),
            final(self).nodes@.to_set() == old(self).nodes@.to_set().insert(a),
            forall|x: usize, y: usize| final(self).edge(x, y) == old(self).edge(x, y),
            forall|x: usize| #[trigger] old(self).predecessors@.contains_key(x)
                ==> final(self).predecessors@.contains_key(x) && final(self).predecessors@[x] == old(self).predecessors@[x],
            final(self).predecessors@.contains_key(a),
            final(self).successors@.contains_key(a),
            !old(self).predecessors@.contains_key(a) ==> final(self).predecessors@[a]@.len() == 0,
            !old(self).successors@.contains_key(a) ==> final(self).successors@[a]@.len() == 0,
            forall|x: usize| #[trigger] old(self).successors@.contains_key(x)
                ==> final(self).successors@.contains_key(x) && final(self).successors@[x] == old(self).successors@[x],
    {
        if !self.successors.contains_key(&a) {
            assert(!self.nodes@.contains(a));
            insert_unique(&mut self.nodes, a);
            self.successors.insert(a, Vec::new());
            self.predecessors.insert(a, Vec::new());
            proof {
                assert forall|x: usize, y: usize| #[trigger] self.edge(x, y) implies self.nodes@.contains(y) by {
                    assert(old(self).edge(x, y));
                    assert(self.nodes@.to_set().contains(y));
                }
                assert forall|x: usize, y: usize| #[trigger] self.edge(x, y) implies self.predecessors@[y]@.contains(x) by {
                    assert(old(self).edge(x, y));
                    assert(old(self).nodes@.contains(y));
                    assert(y != a);
                }
                assert forall|x: usize| self.successors@.contains_key(x) <==> self.nodes@.contains(x) by {
                    assert(self.nodes@.contains(x) == self.nodes@.to_set().contains(x));
                    assert(old(self).nodes@.contains(x) == old(self).nodes@.to_set().contains(x));
                }
                assert forall|x: usize| self.predecessors@.contains_key(x) <==> self.nodes@.contains(x) by {
                    assert(self.nodes@.contains(x) == self.nodes@.to_set().contains(x));
                    assert(old(self).nodes@.contains(x) == old(self).nodes@.to_set().contains(x));
                }
            }
        } else {
            assert(self.nodes@.contains(a));
            assert(self.nodes@.to_set() =~= self.nodes@.to_set().insert(a));
        }
    }

    /// Records the edge `src -> dst`.
    pub fn add_edge(&mut self, src: usize, dst: usize)
        requires
            old(self).wf(),
        ensures
            final(self).wf(),
            final(self).nodes@.to_set() == old(self).nodes@.to_set().insert(src).insert(dst),
            forall|x: usize, y: usize| final(self).edge(x, y) == (old(self).edge(x, y) || (x == src && y == dst)),
            final(self).predecessors@[dst]@.to_set() == (if old(self).predecessors@.contains_key(dst) {
                old(self).predecessors@[dst]@.to_set()
            } else {
                Set::empty()
            }).insert(src),
            final(self).successors@[src]@.to_set() == (if old(self).successors@.contains_key(src) {
                old(self).successors@[src]@.to_set()
            } else {
                Set::empty()
            }).insert(dst),
            forall|y: usize| y != dst && #[trigger] old(self).predecessors@.contains_key(y)
                ==> final(self).predecessors@[y] == old(self).predecessors@[y],
            forall|y: usize| y != src && #[trigger] old(self).successors@.contains_key(y)
                ==> final(self).successors@[y] == old(self).successors@[y],
    {
        self.ensure_node(src);
        self.ensure_node(dst);
        let ghost mid = *self;
        assert(self.successors@.contains_key(src));
        assert(self.successors@[src]@.no_duplicates());
        let mut preds = self.predecessors.remove(&dst).unwrap();
        insert_unique(&mut preds, src);
        self.predecessors.insert(dst, preds);
        let mut succs = self.successors.remove(&src).unwrap();
        insert_unique(&mut succs, dst);
        self.successors.insert(src, succs);
        proof {
            assert forall|x: usize| self.successors@.contains_key(x) <==> self.nodes@.contains(x) by {
                assert(mid.successors@.contains_key(x) <==> mid.nodes@.contains(x));
            }
            assert forall|x: usize| self.predecessors@.contains_key(x) <==> self.nodes@.contains(x) by {
                assert(mid.predecessors@.contains_key(x) <==> mid.nodes@.contains(x));
            }
            assert forall|x: usize, y: usize| self.edge(x, y) == (old(self).edge(x, y) || (x == src && y == dst)) by {
                assert(mid.edge(x, y) == old(self).edge(x, y));
                if x == src {
                    assert(self.successors@[x]@.to_set().contains(y) == self.successors@[x]@.contains(y));
                    assert(mid.successors@[x]@.to_set().contains(y) == mid.successors@[x]@.contains(y));
                }
            }
            assert forall|x: usize, y: usize| #[trigger] self.edge(x, y) implies self.nodes@.contains(y) by {
                if !(x == src && y == dst) {
                    assert(mid.edge(x, y));
                } else {
                    assert(self.nodes@.to_set().contains(dst));
                }
            }
            assert forall|x: usize, y: usize| #[trigger] self.edge(x, y) implies self.predecessors@[y]@.contains(x) by {
                if x == src && y == dst {
                    assert(self.predecessors@[dst]@.to_set().contains(src));
                } else {
                    assert(mid.edge(x, y));
                    assert(mid.predecessors@[y]@.contains(x));
                    if y == dst {
                        assert(mid.predecessors@[dst]@.to_set().contains(x));
                        assert(self.predecessors@[dst]@.to_set().contains(x));
                    }
                }
            }
            assert forall|x: usize, y: usize| self.predecessors@.contains_key(y) && #[trigger] self.predecessors@[y]@.contains(x)
                implies self.edge(x, y) by {
                if y == dst {
                    assert(self.predecessors@[dst]@.to_set().contains(x));
                    if x != src {
                        assert(mid.predecessors@[dst]@.to_set().contains(x));
                        assert(mid.predecessors@[dst]@.contains(x));
                        assert(mid.edge(x, y));
                    }
                } else {
                    assert(mid.predecessors@.contains_key(y));
                    assert(mid.predecessors@[y]@.contains(x));
                    assert(mid.edge(x, y));
                }
            }
            if !old(self).predecessors@.contains_key(dst) {
                assert(mid.predecessors@[dst]@.to_set() =~= Set::<usize>::empty());
            }
            if !old(self).successors@.contains_key(src) {
                assert(mid.successors@[src]@.to_set() =~= Set::<usize>::empty());
            }
        }
    }

    /// The addresses among `nodes` below `n` without predecessors.
    pub open spec fn heads_upto(&self, n: int) -> Seq<usize>
        decreases n,
    {
        if n <= 0 {
            Seq::empty()
        } else {
            let a = self.nodes@[n - 1];
            if self.predecessors@[a]@.len() == 0 {
                self.heads_upto(n - 1).push(a)
            } else {
                self.heads_upto(n - 1)
            }
        }
    }

    /// Every listed head is a node without predecessors.
    pub proof fn lemma_heads(&self, n: int)
        requires
            0 <= n <= self.nodes@.len(),
        ensures
            forall|k: int| 0 <= k < self.heads_upto(n).len() ==> {
                let h = #[trigger] self.heads_upto(n)[k];
                &&& self.nodes@.contains(h)
                &&& self.predecessors@[h]@.len() == 0
            },
        decreases n,
    {
        if n > 0 {
            self.lemma_heads(n - 1);
            let a = self.nodes@[n - 1];
            assert(self.nodes@.contains(a));
            let prev = self.heads_upto(n - 1);
            let cur = self.heads_upto(n);
            assert forall|k: int| 0 <= k < cur.len() implies {
                let h = #[trigger] cur[k];
                &&& self.nodes@.contains(h)
                &&& self.predecessors@[h]@.len() == 0
            } by {
                if k < prev.len() {
                    assert(cur[k] == prev[k]);
                } else {
                    assert(cur[k] == a);
                }
            }
        }
    }

    /// The listed heads are the nodes without predecessors, each once.
    pub proof fn lemma_heads_set(&self, n: int)
        requires
            self.wf(),
            0 <= n <= self.nodes@.len(),
        ensures
            self.heads_upto(n).no_duplicates(),
            forall|x: usize| self.heads_upto(n).contains(x) <==> (exists|k: int| 0 <= k < n && self.nodes@[k] == x)
                && self.predecessors@[x]@.len() == 0,
        decreases n,
    {
        if n > 0 {
            self.lemma_heads_set(n - 1);
            let a = self.nodes@[n - 1];
            let prev = self.heads_upto(n - 1);
            let cur = self.heads_upto(n);
            assert forall|x: usize| cur.contains(x) <==> (exists|k: int| 0 <= k < n && self.nodes@[k] == x)
                && self.predecessors@[x]@.len() == 0 by {
                if cur.contains(x) && x != a {
                    let i = choose|i: int| 0 <= i < cur.len() && cur[i] == x;
                    assert(prev[i] == x);
                }
                if prev.contains(x) {
                    let i = choose|i: int| 0 <= i < prev.len() && prev[i] == x;
                    assert(cur[i] == x);
                }
                if x == a && self.predecessors@[x]@.len() == 0 {
                    assert(cur[cur.len() - 1] == a);
                }
                if (exists|k: int| 0 <= k < n && self.nodes@[k] == x) && self.predecessors@[x]@.len() == 0 && x != a {
                    let k = choose|k: int| 0 <= k < n && self.nodes@[k] == x;
                    assert(k < n - 1);
                }
            }
            if self.predecessors@[a]@.len() == 0 {
                assert(!prev.contains(a)) by {
                    if prev.contains(a) {
                        let k = choose|k: int| 0 <= k < n - 1 && self.nodes@[k] == a;
                        assert(self.nodes@[k] == self.nodes@[n - 1]);
                    }
                }
                assert forall|i: int, j: int| 0 <= i < j < cur.len() implies cur[i] != cur[j] by {
                    if j == cur.len() - 1 {
                        assert(prev.contains(cur[i]));
                    } else {
                        assert(cur[i] == prev[i] && cur[j] == prev[j]);
                    }
                }
            }
        }
    }

    /// Whether a block ends at node `a`: its successor count is not one, or
    /// its single successor has other than one predecessor.
    pub open spec fn ends_block(&self, a: usize) -> bool {
        let s = self.successors@[a]@;
        s.len() != 1 || self.predecessors@[s[0]]@.len() != 1
    }

    /// Whether `x` is a node without predecessors.
    pub open spec fn is_head_node(&self, x: usize) -> bool {
        self.nodes@.contains(x) && self.predecessors@[x]@.len() == 0
    }

    /// There is a single head exactly when a single node has no
    /// predecessors.
    pub proof fn lemma_single_head(&self)
        requires
            self.heads_upto(self.nodes@.len() as int).no_duplicates(),
            forall|x: usize| self.heads_upto(self.nodes@.len() as int).contains(x)
                <==> (exists|k: int| 0 <= k < self.nodes@.len() && self.nodes@[k] == x) && self.predecessors@[x]@.len() == 0,
        ensures
            (self.heads_upto(self.nodes@.len() as int).len() == 1) <==> exists|h: usize| self.is_head_node(h)
                && forall|g: usize| self.is_head_node(g) ==> g == h,
    {
        let n = self.nodes@.len() as int;
        let hs = self.heads_upto(n);
        assert forall|x: usize| hs.contains(x) <==> self.is_head_node(x) by {
            if self.nodes@.contains(x) {
                let k = choose|k: int| 0 <= k < n && self.nodes@[k] == x;
            }
        }
        if hs.len() == 1 {
            let h = hs[0];
            assert(hs.contains(h));
            assert forall|g: usize| self.is_head_node(g) implies g == h by {
                assert(hs.contains(g));
            }
        }
        if exists|h: usize| self.is_head_node(h) && forall|g: usize| self.is_head_node(g) ==> g == h {
            let h = choose|h: usize| self.is_head_node(h) && forall|g: usize| self.is_head_node(g) ==> g == h;
            assert(hs.contains(h));
            if hs.len() > 1 {
                assert(hs.contains(hs[0]) && hs.contains(hs[1]));
                assert(self.is_head_node(hs[0]) && self.is_head_node(hs[1]));
                assert(hs[0] == hs[1]);
            }
        }
    }

    /// The addresses without predecessors, in order of first appearance.
    pub fn heads(&self) -> (r: Vec<usize>)
        requires
            self.wf(),
        ensures
            r@ == self.heads_upto(self.nodes@.len() as int),
            forall|a: usize| r@.contains(a) ==> self.nodes@.contains(a),
    {
        let mut r: Vec<usize> = Vec::new();
        let mut k: usize = 0;
        while k < self.nodes.len()
            invariant
                self.wf(),
                k <= self.nodes@.len(),
                r@ == self.heads_upto(k as int),
                forall|a: usize| r@.contains(a) ==> self.nodes@.contains(a),
            decreases self.nodes@.len() - k,
        {
            let a = self.nodes[k];
            assert(self.nodes@.contains(a));
            let preds = self.predecessors.get(&a).unwrap();
            if preds.len() == 0 {
                let ghost before = r@;
                r.push(a);
                proof {
                    assert forall|b: usize| r@.contains(b) implies self.nodes@.contains(b) by {
                        let i = choose|i: int| 0 <= i < r@.len() && r@[i] == b;
                        if i < before.len() {
                            assert(before[i] == b);
                            assert(before.contains(b));
                        }
                    }
                }
            }
            k = k + 1;
        }
        r
    }

    /// The addresses reachable from `start`, in depth-first order, each once.
    pub fn dfs(&self, start: usize) -> (r: Vec<usize>)
        requires
            self.wf(),
        ensures
            r@.no_duplicates(),
            r@.contains(start),
            forall|a: usize| r@.contains(a) ==> a == start || self.nodes@.contains(a),
            forall|a: usize, b: usize| r@.contains(a) && #[trigger] self.edge(a, b) ==> r@.contains(b),
            r@[0] == start,
            forall|k: int| 0 < k < r@.len() ==> #[trigger] reached_from(self, r@.subrange(0, k), r@[k]),
    {
        let mut ret: Vec<usize> = Vec::new();
        let mut stack: Vec<usize> = Vec::new();
        stack.push(start);
        assert(stack@[0] == start);
        let mut done: HashSet<usize> = HashSet::new();
        while stack.len() > 0
            invariant
                self.wf(),
                ret@.no_duplicates(),
                forall|a: usize| ret@.contains(a) <==> done@.contains(a),
                forall|a: usize| ret@.contains(a) ==> a == start || self.nodes@.contains(a),
                forall|a: usize| stack@.contains(a) ==> a == start || self.nodes@.contains(a),
                ret@.contains(start) || stack@.contains(start),
                forall|a: usize, b: usize| ret@.contains(a) && #[trigger] self.edge(a, b)
                    ==> ret@.contains(b) || stack@.contains(b),
                ret@.len() == 0 ==> stack@ == seq![start],
                ret@.len() > 0 ==> ret@[0] == start,
                forall|k: int| 0 < k < ret@.len() ==> #[trigger] reached_from(self, ret@.subrange(0, k), ret@[k]),
                forall|i: int| 0 <= i < stack@.len() ==> stack@[i] == start || #[trigger] reached_from(self, ret@, stack@[i]),
            decreases self.nodes@.len() + 1 - ret@.len(), stack@.len(),
        {
            proof {
                lemma_unique_list_bounded(ret@, self.nodes@, start);
            }
            let ghost stack_before = stack@;
            let node = stack.pop().unwrap();
            assert(stack_before =~= stack@.push(node));
            assert forall|a: usize| stack_before.contains(a) implies stack@.contains(a) || a == node by {
                let i = choose|i: int| 0 <= i < stack_before.len() && stack_before[i] == a;
                if i < stack@.len() {
                    assert(stack@[i] == a);
                }
            }
            assert forall|a: usize| stack@.contains(a) implies a == start || self.nodes@.contains(a) by {
                let i = choose|i: int| 0 <= i < stack@.len() && stack@[i] == a;
                assert(stack_before[i] == a);
                assert(stack_before.contains(a));
            }
            assert(stack_before[stack_before.len() - 1] == node);
            assert(stack_before.contains(node));
            assert(node == start || reached_from(self, ret@, node));
            assert forall|i: int| 0 <= i < stack@.len() implies stack@[i] == start || #[trigger] reached_from(self, ret@, stack@[i]) by {
                assert(stack@[i] == stack_before[i]);
            }
            proof {
                if ret@.len() == 0 {
                    assert(node == start);
                }
            }
            if done.contains(&node) {
                continue;
            }
            assert(node == start || self.nodes@.contains(node));
            done.insert(node);
            let ghost ret_before = ret@;
            ret.push(node);
            proof {
                assert(ret@.no_duplicates()) by {
                    assert forall|i: int, j: int| 0 <= i < j < ret@.len() implies ret@[i] != ret@[j] by {
                        if j == ret@.len() - 1 {
                            assert(ret_before.contains(ret@[i]));
                        }
                    }
                }
                assert forall|a: usize| ret@.contains(a) <==> ret_before.contains(a) || a == node by {
                    if ret@.contains(a) && a != node {
                        let i = choose|i: int| 0 <= i < ret@.len() && ret@[i] == a;
                        assert(ret_before[i] == a);
                    }
                    if ret_before.contains(a) {
                        let i = choose|i: int| 0 <= i < ret_before.len() && ret_before[i] == a;
                        assert(ret@[i] == a);
                    }
                    if a == node {
                        assert(ret@[ret@.len() - 1] == node);
                    }
                }
                assert forall|a: usize| ret@.contains(a) implies a == start || self.nodes@.contains(a) by {
                    if a != node {
                        assert(ret_before.contains(a));
                    }
                }
                lemma_unique_list_bounded(ret@, self.nodes@, start);
                if ret_before.len() > 0 {
                    assert(ret_before[0] == start);
                    assert(ret_before.contains(start));
                    assert(node != start);
                }
                assert(ret@[0] == start);
                assert forall|k: int| 0 < k < ret@.len() implies #[trigger] reached_from(self, ret@.subrange(0, k), ret@[k]) by {
                    if k < ret_before.len() {
                        assert(ret@.subrange(0, k) =~= ret_before.subrange(0, k));
                        assert(ret@[k] == ret_before[k]);
                    } else {
                        assert(ret@.subrange(0, k) =~= ret_before);
                        assert(reached_from(self, ret_before, node));
                    }
                }
                assert forall|i: int| 0 <= i < stack@.len() implies stack@[i] == start || #[trigger] reached_from(self, ret@, stack@[i]) by {
                    if stack@[i] != start {
                        assert(reached_from(self, ret_before, stack@[i]));
                        let j = choose|j: int| 0 <= j < ret_before.len() && self.edge(ret_before[j], stack@[i]);
                        assert(ret@[j] == ret_before[j]);
                    }
                }
                assert(ret@[ret@.len() - 1] == node);
            }
            let ghost stack_mid = stack@;
            match self.successors.get(&node) {
                Some(succs) => {
                    let mut k: usize = 0;
                    while k < succs.len()
                        invariant
                            self.wf(),
                            self.successors@.contains_key(node),
                            *succs == self.successors@[node],
                            k <= succs@.len(),
                            stack@ == stack_mid + succs@.subrange(0, k as int),
                            ret@.len() > 0,
                            ret@[ret@.len() - 1] == node,
                            forall|m: int| 0 <= m < stack@.len() ==> stack@[m] == start || #[trigger] reached_from(self, ret@, stack@[m]),
                        decreases succs@.len() - k,
                    {
                        proof {
                            assert(self.successors@[node]@.contains(succs@[k as int]));
                            assert(self.edge(ret@[ret@.len() - 1], succs@[k as int]));
                            assert(reached_from(self, ret@, succs@[k as int]));
                        }
                        stack.push(succs[k]);
                        assert(succs@.subrange(0, k + 1) =~= succs@.subrange(0, k as int).push(succs@[k as int]));
                        k = k + 1;
                    }
                    assert(succs@.subrange(0, succs@.len() as int) =~= succs@);
                    proof {
                        assert forall|a: usize| stack@.contains(a) implies a == start || self.nodes@.contains(a) by {
                            let i = choose|i: int| 0 <= i < stack@.len() && stack@[i] == a;
                            if i < stack_mid.len() {
                                assert(stack_mid[i] == a);
                                assert(stack_mid.contains(a));
                            } else {
                                assert(succs@[i - stack_mid.len()] == a);
                                assert(self.successors@[node]@.contains(a));
                                assert(self.edge(node, a));
                            }
                        }
                        assert forall|a: usize, b: usize| ret@.contains(a) && #[trigger] self.edge(a, b)
                            implies ret@.contains(b) || stack@.contains(b) by {
                            if a == node {
                                let i = choose|i: int| 0 <= i < succs@.len() && succs@[i] == b;
                                assert(stack@[stack_mid.len() + i] == b);
                            } else {
                                assert(ret_before.contains(a));
                                if stack_mid.contains(b) {
                                    let i = choose|i: int| 0 <= i < stack_mid.len() && stack_mid[i] == b;
                                    assert(stack@[i] == b);
                                }
                            }
                        }
                        if stack_mid.contains(start) {
                            let i = choose|i: int| 0 <= i < stack_mid.len() && stack_mid[i] == start;
                            assert(stack@[i] == start);
                        }
                    }
                }
                None => {
                    proof {
                        assert forall|a: usize, b: usize| ret@.contains(a) && #[trigger] self.edge(a, b)
                            implies ret@.contains(b) || stack@.contains(b) by {
                            if a == node {
                                assert(!self.successors@.contains_key(node));
                            } else {
                                assert(ret_before.contains(a));
                            }
                        }
                    }
                }
            }
        }
        ret
    }

    /// Groups the addresses reachable from the single head into basic
    /// blocks, walking them depth first. A block ends at an address whose
    /// successor count is not one, or whose single successor has other than
    /// one predecessor; its leading address gives the block's predecessors,
    /// its terminal address the block's successors. `None` when the edges
    /// have no head or more than one.
    #[verifier::spinoff_prover]
    pub fn construct_graph(&self) -> (r: Option<ControlFlowGraph>)
        requires
            self.wf(),
        ensures
            r.is_none() <==> self.heads_upto(self.nodes@.len() as int).len() != 1,
            r.is_some() ==> {
                let cfg = r->0;
                let head = self.heads_upto(self.nodes@.len() as int)[0];
                &&& cfg.wf()
                &&& cfg.addresses().contains(head)
                &&& self.nodes@.contains(head)
                &&& forall|x: usize| !self.edge(x, head)
                &&& forall|a: usize| cfg.addresses().contains(a) ==> self.nodes@.contains(a)
                &&& forall|a: usize, b: usize| cfg.addresses().contains(a) && #[trigger] self.edge(a, b)
                    ==> cfg.addresses().contains(b)
                &&& cfg.partitioned()
                &&& forall|e: usize| #[trigger] cfg.exit_addr_to_bb@.contains_key(e)
                    ==> self.successors@.contains_key(e)
                        && cfg.exit_addr_to_bb@[e].successors@.to_set() == self.successors@[e]@.to_set()
                &&& forall|e: usize, i: int| cfg.exit_addr_to_bb@.contains_key(e) && 0 <= i < cfg.exit_addr_to_bb@[e].body@.len() - 1
                    ==> !self.ends_block(#[trigger] cfg.exit_addr_to_bb@[e].body@[i])
            },
    {
        let heads = self.heads();
        if heads.len() != 1 {
            return None;
        }
        let head = heads[0];
        assert(heads@.contains(head));
        proof {
            self.lemma_heads(self.nodes@.len() as int);
            assert(self.heads_upto(self.nodes@.len() as int)[0] == head);
            assert forall|x: usize| !self.edge(x, head) by {
                if self.edge(x, head) {
                    assert(self.predecessors@[head]@.contains(x));
                }
            }
        }
        let order = self.dfs(head);
        let mut cfg = ControlFlowGraph::new();
        let mut bb = BasicBlock::new();
        let mut k: usize = 0;
        let ghost mut bstart: int = 0;
        assert(bb.body@ =~= order@.subrange(0, 0));
        assert(cfg.addresses() =~= order@.subrange(0, 0).to_set());
        while k < order.len()
            invariant
                self.wf(),
                self.nodes@.contains(head),
                order@.no_duplicates(),
                forall|a: usize| order@.contains(a) ==> a == head || self.nodes@.contains(a),
                k <= order@.len(),
                0 <= bstart <= k,
                cfg.wf(),
                cfg.partitioned(),
                bb.wf(),
                bb.body@ == order@.subrange(bstart, k as int),
                cfg.addresses() == order@.subrange(0, bstart).to_set(),
                bb.successors@.len() == 0,
                forall|e: usize| #[trigger] cfg.exit_addr_to_bb@.contains_key(e)
                    ==> self.successors@.contains_key(e)
                        && cfg.exit_addr_to_bb@[e].successors@.to_set() == self.successors@[e]@.to_set(),
                forall|e: usize, i: int| cfg.exit_addr_to_bb@.contains_key(e) && 0 <= i < cfg.exit_addr_to_bb@[e].body@.len() - 1
                    ==> !self.ends_block(#[trigger] cfg.exit_addr_to_bb@[e].body@[i]),
                forall|i: int| 0 <= i < bb.body@.len() ==> !self.ends_block(#[trigger] bb.body@[i]),
            decreases order@.len() - k,
        {
            let node = order[k];
            assert(order@.contains(node));
            let preds = self.predecessors.get(&node).unwrap();
            let succs = self.successors.get(&node).unwrap();
            let mut finished = false;
            if bb.body.len() == 0 {
                add_all(&mut bb.predecessors, preds);
            }
            if succs.len() == 1 {
                let t = succs[0];
                assert(self.successors@[node]@.contains(t));
                assert(self.edge(node, t));
                let tp = self.predecessors.get(&t).unwrap();
                if tp.len() != 1 {
                    add_all(&mut bb.successors, succs);
                    finished = true;
                }
            } else {
                add_all(&mut bb.successors, succs);
                finished = true;
            }
            assert(finished == self.ends_block(node));
            let ghost body_old = bb.body@;
            bb.body.push(node);
            proof {
                assert(order@.subrange(bstart, k + 1) =~= order@.subrange(bstart, k as int).push(node));
                assert forall|i: int| 0 <= i < bb.body@.len() - 1 implies !self.ends_block(#[trigger] bb.body@[i]) by {
                    assert(bb.body@[i] == body_old[i]);
                }
            }
            if finished {
                assert(bb.successors@.to_set() =~= self.successors@[node]@.to_set());
                let mut done = BasicBlock::new();
                std::mem::swap(&mut done, &mut bb);
                let ghost g0 = cfg;
                cfg.add_bb(done);
                proof {
                    assert forall|x: usize| #[trigger] done.body@.contains(x) implies !g0.addresses().contains(x) by {
                        let i = choose|i: int| 0 <= i < done.body@.len() && done.body@[i] == x;
                        assert(order@[bstart + i] == x);
                        if g0.addresses().contains(x) {
                            assert(order@.subrange(0, bstart).contains(x));
                            let sb = order@.subrange(0, bstart);
                let m = choose|m: int| 0 <= m < sb.len() && sb[m] == x;
                            assert(order@[m] == x);
                        }
                    }
                    lemma_add_bb_partitioned(g0, cfg, done);
                    assert(done.body@.last() == node);
                    assert(cfg.addresses() =~= order@.subrange(0, k + 1).to_set()) by {
                        assert forall|x: usize| cfg.addresses().contains(x) <==> order@.subrange(0, k + 1).contains(x) by {
                            let pre = order@.subrange(0, k + 1);
                            if pre.contains(x) {
                                let m = choose|m: int| 0 <= m < pre.len() && pre[m] == x;
                                if m < bstart {
                                    assert(order@.subrange(0, bstart)[m] == x);
                                } else {
                                    assert(done.body@[m - bstart] == x);
                                    assert(done.body@.to_set().contains(x));
                                }
                            }
                            if cfg.addresses().contains(x) {
                                if g0.addresses().contains(x) {
                                    let sb = order@.subrange(0, bstart);
                let m = choose|m: int| 0 <= m < sb.len() && sb[m] == x;
                                    assert(order@.subrange(0, k + 1)[m] == x);
                                } else {
                                    assert(done.body@.to_set().contains(x));
                                    let m = choose|m: int| 0 <= m < done.body@.len() && done.body@[m] == x;
                                    assert(order@.subrange(0, k + 1)[bstart + m] == x);
                                }
                            }
                        }
                    }
                    bstart = k + 1;
                    assert(bb.body@ =~= order@.subrange(bstart, k + 1));
                }
            }
            k = k + 1;
        }
        if bb.body.len() > 0 {
            let last = bb.exit();
            assert(bb.body@.contains(last));
            assert(order@.contains(last));
            let succs = self.successors.get(&last).unwrap();
            add_all(&mut bb.successors, succs);
            let ghost g0 = cfg;
            let ghost done = bb;
            cfg.add_bb(bb);
            proof {
                assert forall|x: usize| #[trigger] done.body@.contains(x) implies !g0.addresses().contains(x) by {
                    let i = choose|i: int| 0 <= i < done.body@.len() && done.body@[i] == x;
                    assert(order@[bstart + i] == x);
                    if g0.addresses().contains(x) {
                        assert(order@.subrange(0, bstart).contains(x));
                        let sb = order@.subrange(0, bstart);
                let m = choose|m: int| 0 <= m < sb.len() && sb[m] == x;
                        assert(order@[m] == x);
                    }
                }
                lemma_add_bb_partitioned(g0, cfg, done);
                assert(done.successors@.to_set() =~= self.successors@[last]@.to_set());
            }
        }
        proof {
            assert(order@.subrange(0, order@.len() as int) =~= order@);
            assert(cfg.addresses() == order@.to_set()) by {
                assert forall|x: usize| cfg.addresses().contains(x) <==> order@.to_set().contains(x) by {
                    if order@.contains(x) {
                        let m = choose|m: int| 0 <= m < order@.len() && order@[m] == x;
                        if m < bstart {
                            assert(order@.subrange(0, bstart)[m] == x);
                        } else {
                            assert(order@.subrange(bstart, order@.len() as int)[m - bstart] == x);
                        }
                    }
                }
            }
            assert forall|a: usize| cfg.addresses().contains(a) implies order@.contains(a) by {
                assert(order@.to_set().contains(a));
            }
            assert(order@.to_set().contains(head));
        }
        Some(cfg)
    }
}

} // verus!

//! The trace model: per-address instruction summaries with observed register
//! extrema and successor edges, one trace per program run.
use std::collections::HashMap;
use vstd::prelude::*;
use crate::text::{hex_padded, hex_padded_string, push_char, push_str};

verus! {

broadcast use vstd::std_specs::hash::group_hash_axioms;

/// Number of register indices in a summary.
pub const REGISTER_COUNT: usize = 25;
/// Index of the stack pointer.
pub const RSP_INDEX: usize = 7;
/// Index of the flags register.
pub const EFLAGS_INDEX: usize = 22;
/// Index of the synthetic memory-address register.
pub const MEMORY_ADDRESS_INDEX: usize = 23;
/// Index of the synthetic memory-value register.
pub const MEMORY_VALUE_INDEX: usize = 24;

/// The name of register index `i`.
pub open spec fn register_name_spec(i: int) -> Seq<char> {
    if i == 0 { "rax"@ } else if i == 1 { "rbx"@ } else if i == 2 { "rcx"@ }
    else if i == 3 { "rdx"@ } else if i == 4 { "rsi"@ } else if i == 5 { "rdi"@ }
    else if i == 6 { "rbp"@ } else if i == 7 { "rsp"@ } else if i == 8 { "r8"@ }
    else if i == 9 { "r9"@ } else if i == 10 { "r10"@ } else if i == 11 { "r11"@ }
    else if i == 12 { "r12"@ } else if i == 13 { "r13"@ } else if i == 14 { "r14"@ }
    else if i == 15 { "r15"@ } else if i == 16 { "seg_cs"@ } else if i == 17 { "seg_ss"@ }
    else if i == 18 { "seg_ds"@ } else if i == 19 { "seg_es"@ } else if i == 20 { "seg_fs"@ }
    else if i == 21 { "seg_gs"@ } else if i == 22 { "eflags"@ } else if i == 23 { "memory_address"@ }
    else { "memory_value"@ }
}

/// The name of register index `i` in trace summaries.
pub fn register_name(i: usize) -> (r: &'static str)
    requires
        i < REGISTER_COUNT,
    ensures
        r@ == register_name_spec(i as int),
{
    match i {
        0 => "rax",
        1 => "rbx",
        2 => "rcx",
        3 => "rdx",
        4 => "rsi",
        5 => "rdi",
        6 => "rbp",
        7 => "rsp",
        8 => "r8",
        9 => "r9",
        10 => "r10",
        11 => "r11",
        12 => "r12",
        13 => "r13",
        14 => "r14",
        15 => "r15",
        16 => "seg_cs",
        17 => "seg_ss",
        18 => "seg_ds",
        19 => "seg_es",
        20 => "seg_fs",
        21 => "seg_gs",
        22 => "eflags",
        23 => "memory_address",
        _ => "memory_value",
    }
}

/// Which view of a register summary a predicate reads.
#[derive(Clone, Copy, Debug, PartialEq, Eq, Structural)]
pub enum Selector {
    RegMin,
    RegMax,
    RegLast,
    RegMaxMinDiff,
    InsCount,
}

/// One observed register value.
#[derive(Clone, Copy, Debug, PartialEq, Eq, Structural)]
pub struct Register {
    pub value: u64,
}

impl Register {
    pub fn new(_name: &str, value: u64) -> (r: Register)
        ensures
            r.value == value,
    {
        Register { value }
    }

    pub fn value(&self) -> (r: u64)
        ensures
            r == self.value,
    {
        self.value
    }

    pub fn to_string(&self) -> (r: String)
        ensures
            r@ == hex_padded(self.value as nat),
    {
        hex_padded_string(self.value)
    }

    pub fn to_string_extended(&self) -> (r: String)
        ensures
            r@ == hex_padded(self.value as nat),
    {
        hex_padded_string(self.value)
    }
}

/// Register values keyed by register index.
#[derive(Debug)]
pub struct Registers(pub HashMap<usize, Register>);

impl Registers {
    pub open spec fn view(&self) -> Map<usize, Register> {
        self.0@
    }

    pub fn new() -> (r: Registers)
        ensures
            r.view() == Map::<usize, Register>::empty(),
    {
        Registers(HashMap::new())
    }

    pub fn get(&self, index: usize) -> (r: Option<&Register>)
        ensures
            match r {
                Some(reg) => self.view().contains_key(index) && *reg == self.view()[index],
                None => !self.view().contains_key(index),
            },
    {
        self.0.get(&index)
    }

    pub fn insert(&mut self, index: usize, reg: Register)
        ensures
            final(self).view() == old(self).view().insert(index, reg),
    {
        self.0.insert(index, reg);
    }

    pub fn len(&self) -> (r: usize)
        ensures
            r == self.view().len(),
    {
        self.0.len()
    }

    /// The register indices present, below `REGISTER_COUNT`, in order.
    pub fn keys(&self) -> (r: Vec<usize>)
        ensures
            r@ == present_indices(self.view(), REGISTER_COUNT as int),
    {
        let mut r: Vec<usize> = Vec::new();
        let mut i: usize = 0;
        while i < REGISTER_COUNT
            invariant
                i <= REGISTER_COUNT,
                r@ == present_indices(self.view(), i as int),
            decreases REGISTER_COUNT - i,
        {
            if self.0.contains_key(&i) {
                r.push(i);
            }
            i = i + 1;
        }
        r
    }

    /// The values at the indices of `keys`, in the same order.
    pub fn values(&self) -> (r: Vec<Register>)
        ensures
            r@ == present_indices(self.view(), REGISTER_COUNT as int).map_values(|i: usize| self.view()[i]),
    {
        let mut r: Vec<Register> = Vec::new();
        let mut i: usize = 0;
        while i < REGISTER_COUNT
            invariant
                i <= REGISTER_COUNT,
                r@ == present_indices(self.view(), i as int).map_values(|x: usize| self.view()[x]),
            decreases REGISTER_COUNT - i,
        {
            let ghost before = r@;
            if let Some(v) = self.get(i) {
                r.push(*v);
            }
            proof {
                let p0 = present_indices(self.view(), i as int);
                if self.view().contains_key(i) {
                    assert(present_indices(self.view(), i + 1) == p0.push(i));
                    assert(p0.push(i).map_values(|x: usize| self.view()[x]) =~= before.push(self.view()[i]));
                } else {
                    assert(present_indices(self.view(), i + 1) == p0);
                }
            }
            i = i + 1;
        }
        r
    }

    /// The values with a known register index, in index order, each
    /// followed by `;`.
    pub fn to_string(&self) -> (r: String)
        ensures
            r@ == registers_text(self.view(), REGISTER_COUNT as int),
    {
        let mut r = String::new();
        let mut i: usize = 0;
        while i < REGISTER_COUNT
            invariant
                i <= REGISTER_COUNT,
                r@ == registers_text(self.view(), i as int),
            decreases REGISTER_COUNT - i,
        {
            if let Some(reg) = self.get(i) {
                let t = reg.to_string_extended();
                push_str(&mut r, t.as_str());
                push_char(&mut r, ';');
            }
            i = i + 1;
        }
        r
    }
}

/// The indices below `n` present in `m`, ascending.
pub open spec fn present_indices(m: Map<usize, Register>, n: int) -> Seq<usize>
    decreases n,
{
    if n <= 0 {
        Seq::empty()
    } else if m.contains_key((n - 1) as usize) {
        present_indices(m, n - 1).push((n - 1) as usize)
    } else {
        present_indices(m, n - 1)
    }
}

/// Text of the values of `m` at indices below `n`, each followed by `;`.
pub open spec fn registers_text(m: Map<usize, Register>, n: int) -> Seq<char>
    decreases n,
{
    if n <= 0 {
        Seq::empty()
    } else {
        let prev = registers_text(m, n - 1);
        if m.contains_key((n - 1) as usize) {
            prev + hex_padded(m[(n - 1) as usize].value as nat) + seq![';']
        } else {
            prev
        }
    }
}

/// Extrema of memory accesses made by one instruction.
#[derive(Clone, Copy, Debug, PartialEq, Eq, Structural)]
pub struct Memory {
    pub min_address: u64,
    pub max_address: u64,
    pub last_address: u64,
    pub min_value: u64,
    pub max_value: u64,
    pub last_value: u64,
}

impl Memory {
    /// `memory: ` and the address extrema, the last address, the minimum
    /// value, the maximum address (again) and the last value, separated by
    /// `;`.
    pub fn to_string(&self) -> (r: String)
        ensures
            r@ == "memory: "@ + hex_padded(self.min_address as nat) + seq![';'] + hex_padded(self.max_address as nat)
                + seq![';'] + hex_padded(self.last_address as nat) + seq![';'] + hex_padded(self.min_value as nat)
                + seq![';'] + hex_padded(self.max_address as nat) + seq![';'] + hex_padded(self.last_value as nat),
    {
        let mut r = String::new();
        push_str(&mut r, "memory: ");
        let t = hex_padded_string(self.min_address);
        push_str(&mut r, t.as_str());
        push_char(&mut r, ';');
        let t = hex_padded_string(self.max_address);
        push_str(&mut r, t.as_str());
        push_char(&mut r, ';');
        let t = hex_padded_string(self.last_address);
        push_str(&mut r, t.as_str());
        push_char(&mut r, ';');
        let t = hex_padded_string(self.min_value);
        push_str(&mut r, t.as_str());
        push_char(&mut r, ';');
        let t = hex_padded_string(self.max_address);
        push_str(&mut r, t.as_str());
        push_char(&mut r, ';');
        let t = hex_padded_string(self.last_value);
        push_str(&mut r, t.as_str());
        r
    }
}

/// An outgoing control-flow destination.
#[derive(Clone, Copy, Debug, PartialEq, Eq, Structural)]
pub struct Successor {
    pub address: usize,
}

impl Successor {
    pub fn to_string(&self) -> (r: String)
        ensures
            r@ == hex_padded(self.address as nat),
    {
        hex_padded_string(self.address as u64)
    }
}

/// Summary of one instruction address within one trace.
#[derive(Debug)]
pub struct Instruction {
    pub address: usize,
    pub mnemonic: String,
    pub registers_min: Registers,
    pub registers_max: Registers,
    pub successors: Vec<Successor>,
}

/// Whether the successor addresses are strictly ascending: a sorted set.
pub open spec fn successors_sorted(s: Seq<Successor>) -> bool {
    forall|i: int, j: int| 0 <= i < j < s.len() ==> s[i].address < s[j].address
}

/// The set of successor addresses.
pub open spec fn successor_set(s: Seq<Successor>) -> Set<usize> {
    Set::new(|a: usize| exists|i: int| 0 <= i < s.len() && s[i].address == a)
}

/// Adds `s` to the sorted set `v` unless its address is already there.
pub fn insert_successor_sorted(v: &mut Vec<Successor>, s: Successor)
    requires
        successors_sorted(old(v)@),
    ensures
        successors_sorted(final(v)@),
        successor_set(final(v)@) == successor_set(old(v)@).insert(s.address),
{
    let mut j: usize = 0;
    while j < v.len() && v[j].address < s.address
        invariant
            j <= v@.len(),
            forall|k: int| 0 <= k < j ==> v@[k].address < s.address,
        decreases v@.len() - j,
    {
        j = j + 1;
    }
    if j < v.len() && v[j].address == s.address {
        assert(successor_set(v@).contains(s.address));
        assert(successor_set(v@) =~= successor_set(v@).insert(s.address));
        return;
    }
    let ghost before = v@;
    v.insert(j, s);
    proof {
        assert forall|a: usize| successor_set(v@).contains(a) <==> successor_set(before).insert(s.address).contains(a) by {
            if successor_set(v@).contains(a) {
                let i = choose|i: int| 0 <= i < v@.len() && v@[i].address == a;
                if i < j {
                    assert(before[i].address == a);
                } else if i > j {
                    assert(before[i - 1].address == a);
                }
            }
            if successor_set(before).contains(a) {
                let i = choose|i: int| 0 <= i < before.len() && before[i].address == a;
                if i < j {
                    assert(v@[i].address == a);
                } else {
                    assert(v@[i + 1].address == a);
                }
            }
            if a == s.address {
                assert(v@[j as int].address == a);
            }
        }
        assert(successor_set(v@) =~= successor_set(before).insert(s.address));
    }
}


/// Text of the register extrema at indices below `n`: for each index, the
/// minimum and then the maximum, when present, as `name: value;`.
pub open spec fn instruction_registers_text(min: Map<usize, Register>, max: Map<usize, Register>, n: int) -> Seq<char>
    decreases n,
{
    if n <= 0 {
        Seq::empty()
    } else {
        let i = (n - 1) as usize;
        let prev = instruction_registers_text(min, max, n - 1);
        let with_min = if min.contains_key(i) {
            prev + register_name_spec(i as int) + seq![':', ' '] + hex_padded(min[i].value as nat) + seq![';']
        } else {
            prev
        };
        if max.contains_key(i) {
            with_min + register_name_spec(i as int) + seq![':', ' '] + hex_padded(max[i].value as nat) + seq![';']
        } else {
            with_min
        }
    }
}

/// Text of the first `n` successors, each as `successor: address;`.
pub open spec fn successors_text(s: Seq<Successor>, n: int) -> Seq<char>
    decreases n,
{
    if n <= 0 {
        Seq::empty()
    } else {
        successors_text(s, n - 1) + "successor: "@ + hex_padded(s[n - 1].address as nat) + seq![';']
    }
}

fn push_register_entry(r: &mut String, i: usize, reg: &Register)
    requires
        i < REGISTER_COUNT,
    ensures
        final(r)@ == old(r)@ + register_name_spec(i as int) + seq![':', ' '] + hex_padded(reg.value as nat) + seq![';'],
{
    push_str(r, register_name(i));
    push_char(r, ':');
    push_char(r, ' ');
    let t = reg.to_string_extended();
    push_str(r, t.as_str());
    push_char(r, ';');
}

impl Instruction {
    /// The address, mnemonic, register extrema and successors, separated by `;`.
    pub fn to_string(&self) -> (r: String)
        ensures
            r@ == hex_padded(self.address as nat) + seq![';'] + self.mnemonic@ + seq![';']
                + instruction_registers_text(self.registers_min.view(), self.registers_max.view(), REGISTER_COUNT as int)
                + successors_text(self.successors@, self.successors@.len() as int),
    {
        let mut r = hex_padded_string(self.address as u64);
        push_char(&mut r, ';');
        push_str(&mut r, self.mnemonic.as_str());
        push_char(&mut r, ';');
        let ghost head = r@;
        let mut i: usize = 0;
        while i < REGISTER_COUNT
            invariant
                i <= REGISTER_COUNT,
                r@ == head + instruction_registers_text(self.registers_min.view(), self.registers_max.view(), i as int),
            decreases REGISTER_COUNT - i,
        {
            if let Some(reg) = self.registers_min.get(i) {
                push_register_entry(&mut r, i, reg);
            }
            if let Some(reg) = self.registers_max.get(i) {
                push_register_entry(&mut r, i, reg);
            }
            i = i + 1;
        }
        let ghost mid = r@;
        let mut k: usize = 0;
        while k < self.successors.len()
            invariant
                k <= self.successors@.len(),
                r@ == mid + successors_text(self.successors@, k as int),
            decreases self.successors@.len() - k,
        {
            push_str(&mut r, "successor: ");
            let t = self.successors[k].to_string();
            push_str(&mut r, t.as_str());
            push_char(&mut r, ';');
            k = k + 1;
        }
        r
    }
}

/// An instruction summary as the trace document holds it.
#[derive(Debug)]
pub struct SerializedInstruction {
    pub address: usize,
    pub mnemonic: String,
    pub registers_min: Registers,
    pub registers_max: Registers,
    pub registers_last: Registers,
    pub last_successor: usize,
    pub count: usize,
    pub memory: Option<Memory>,
}

/// `regs` with the memory address and value put at their synthetic indices.
pub open spec fn with_memory(regs: Map<usize, Register>, address: u64, value: u64) -> Map<usize, Register> {
    regs.insert(MEMORY_ADDRESS_INDEX, Register { value: address }).insert(MEMORY_VALUE_INDEX, Register { value: value })
}

impl SerializedInstruction {
    /// The minimum register map of the summary.
    pub open spec fn min_view(&self) -> Map<usize, Register> {
        match self.memory {
            Some(m) => with_memory(self.registers_min.view(), m.min_address, m.min_value),
            None => self.registers_min.view(),
        }
    }

    /// The maximum register map of the summary.
    pub open spec fn max_view(&self) -> Map<usize, Register> {
        match self.memory {
            Some(m) => with_memory(self.registers_max.view(), m.max_address, m.max_value),
            None => self.registers_max.view(),
        }
    }

    /// The last-value register map of the summary.
    pub open spec fn last_view(&self) -> Map<usize, Register> {
        match self.memory {
            Some(m) => with_memory(self.registers_last.view(), m.last_address, m.last_value),
            None => self.registers_last.view(),
        }
    }

    fn add_mem_to_registers(&self) -> (r: (Registers, Registers, Registers))
        ensures
            r.0.view() == self.min_view(),
            r.1.view() == self.max_view(),
            r.2.view() == self.last_view(),
    {
        let mut registers_min = Registers(self.registers_min.0.clone());
        let mut registers_max = Registers(self.registers_max.0.clone());
        let mut registers_last = Registers(self.registers_last.0.clone());
        if let Some(memory) = &self.memory {
            registers_min.insert(MEMORY_ADDRESS_INDEX, Register::new("memory_address", memory.min_address));
            registers_max.insert(MEMORY_ADDRESS_INDEX, Register::new("memory_address", memory.max_address));
            registers_last.insert(MEMORY_ADDRESS_INDEX, Register::new("memory_address", memory.last_address));
            registers_min.insert(MEMORY_VALUE_INDEX, Register::new("memory_value", memory.min_value));
            registers_max.insert(MEMORY_VALUE_INDEX, Register::new("memory_value", memory.max_value));
            registers_last.insert(MEMORY_VALUE_INDEX, Register::new("memory_value", memory.last_value));
        }
        (registers_min, registers_max, registers_last)
    }

    /// The summary without successors, with memory extrema placed at the
    /// synthetic register indices.
    pub fn to_instruction(&self) -> (r: Instruction)
        ensures
            r.address == self.address,
            r.mnemonic@ == self.mnemonic@,
            r.registers_min.view() == self.min_view(),
            r.registers_max.view() == self.max_view(),
            r.successors@.len() == 0,
    {
        let (registers_min, registers_max, _) = self.add_mem_to_registers();
        Instruction {
            address: self.address,
            mnemonic: self.mnemonic.clone(),
            registers_min,
            registers_max,
            successors: Vec::new(),
        }
    }
}

/// An observed control-flow edge of the trace document.
#[derive(Clone, Copy, Debug, PartialEq, Eq, Structural)]
pub struct SerializedEdge {
    pub from: usize,
    pub to: usize,
    pub count: usize,
}

/// A trace as the trace document holds it.
#[derive(Debug)]
pub struct SerializedTrace {
    pub instructions: Vec<SerializedInstruction>,
    pub edges: Vec<SerializedEdge>,
    pub first_address: usize,
    pub last_address: usize,
    pub image_base: usize,
}

/// The destinations of the edges from address `a`.
pub open spec fn edge_targets(edges: Seq<SerializedEdge>, a: usize) -> Set<usize>
    decreases edges.len(),
{
    if edges.len() == 0 {
        Set::empty()
    } else {
        let prev = edge_targets(edges.drop_last(), a);
        if edges.last().from == a {
            prev.insert(edges.last().to)
        } else {
            prev
        }
    }
}

impl SerializedTrace {
    /// Builds the trace: one summary per address (a later summary of the
    /// same address replaces an earlier one), with the destinations of the
    /// edges from each present address as a sorted set of successors; edges
    /// from addresses without a summary are dropped.
    pub fn to_trace(name: String, serialized: SerializedTrace) -> (r: Trace)
        ensures
            r.wf(),
            r.name@ == name@,
            r.image_base == serialized.image_base,
            r.first_address == serialized.first_address,
            r.last_address == serialized.last_address,
            forall|a: usize| r.instructions@.contains_key(a)
                <==> exists|i: int| 0 <= i < serialized.instructions@.len() && serialized.instructions@[i].address == a,
            forall|a: usize| #[trigger] r.instructions@.contains_key(a)
                ==> successor_set(r.instructions@[a].successors@) == edge_targets(serialized.edges@, a),
    {
        let mut trace = Trace::new(name, serialized.image_base, serialized.first_address, serialized.last_address);
        let mut i: usize = 0;
        while i < serialized.instructions.len()
            invariant
                trace.wf(),
                trace.name@ == name@,
                trace.image_base == serialized.image_base,
                trace.first_address == serialized.first_address,
                trace.last_address == serialized.last_address,
                i <= serialized.instructions@.len(),
                forall|a: usize| trace.instructions@.contains_key(a)
                    <==> exists|k: int| 0 <= k < i && serialized.instructions@[k].address == a,
                forall|a: usize| #[trigger] trace.instructions@.contains_key(a)
                    ==> trace.instructions@[a].successors@.len() == 0,
            decreases serialized.instructions@.len() - i,
        {
            let instr = serialized.instructions[i].to_instruction();
            trace.insert_instruction(instr);
            proof {
                assert forall|a: usize| trace.instructions@.contains_key(a)
                    <==> exists|k: int| 0 <= k < i + 1 && serialized.instructions@[k].address == a by {
                    if trace.instructions@.contains_key(a) && a != serialized.instructions@[i as int].address {
                        let k = choose|k: int| 0 <= k < i && serialized.instructions@[k].address == a;
                        assert(0 <= k < i + 1);
                    }
                    if a == serialized.instructions@[i as int].address {
                        assert(serialized.instructions@[i as int].address == a);
                    }
                }
            }
            i = i + 1;
        }
        proof {
            assert forall|a: usize| #[trigger] trace.instructions@.contains_key(a)
                implies successor_set(trace.instructions@[a].successors@) == edge_targets(serialized.edges@.subrange(0, 0), a) by {
                assert(trace.instructions@[a].successors@ =~= Seq::<Successor>::empty());
                assert(successor_set(trace.instructions@[a].successors@) =~= Set::<usize>::empty());
            }
        }
        let mut e: usize = 0;
        while e < serialized.edges.len()
            invariant
                trace.wf(),
                trace.name@ == name@,
                trace.image_base == serialized.image_base,
                trace.first_address == serialized.first_address,
                trace.last_address == serialized.last_address,
                e <= serialized.edges@.len(),
                forall|a: usize| trace.instructions@.contains_key(a)
                    <==> exists|k: int| 0 <= k < serialized.instructions@.len() && serialized.instructions@[k].address == a,
                forall|a: usize| #[trigger] trace.instructions@.contains_key(a)
                    ==> successor_set(trace.instructions@[a].successors@) == edge_targets(serialized.edges@.subrange(0, e as int), a),
            decreases serialized.edges@.len() - e,
        {
            let edge = serialized.edges[e];
            let ghost before = trace.instructions@;
            trace.add_successor(edge.from, Successor { address: edge.to });
            proof {
                let s0 = serialized.edges@.subrange(0, e as int);
                let s1 = serialized.edges@.subrange(0, e + 1);
                assert(s1.drop_last() =~= s0);
                assert forall|a: usize| #[trigger] trace.instructions@.contains_key(a)
                    implies successor_set(trace.instructions@[a].successors@) == edge_targets(s1, a) by {
                    assert(before.contains_key(a));
                }
            }
            e = e + 1;
        }
        assert(serialized.edges@.subrange(0, serialized.edges@.len() as int) =~= serialized.edges@);
        trace
    }
}

/// One run of the target: instruction summaries keyed by address.
#[derive(Debug)]
pub struct Trace {
    pub name: String,
    pub image_base: usize,
    pub instructions: HashMap<usize, Instruction>,
    pub first_address: usize,
    pub last_address: usize,
    /// The keys of `instructions`, in order of first appearance.
    pub addresses: Vec<usize>,
}

impl Trace {
    /// The keys are listed once each, every summary sits under its own
    /// address, and successors are in ascending order.
    pub open spec fn wf(&self) -> bool {
        &&& self.addresses@.no_duplicates()
        &&& forall|a: usize| self.instructions@.contains_key(a) <==> self.addresses@.contains(a)
        &&& forall|a: usize| #[trigger] self.instructions@.contains_key(a) ==> self.instructions@[a].address == a
        &&& forall|a: usize| #[trigger] self.instructions@.contains_key(a)
            ==> successors_sorted(self.instructions@[a].successors@)
    }

    /// Whether address `a` was visited in this trace.
    pub open spec fn visits(&self, a: usize) -> bool {
        self.instructions@.contains_key(a)
    }

    /// A trace with no instructions.
    pub fn new(name: String, image_base: usize, first_address: usize, last_address: usize) -> (r: Trace)
        ensures
            r.wf(),
            r.name@ == name@,
            r.image_base == image_base,
            r.first_address == first_address,
            r.last_address == last_address,
            r.instructions@ == Map::<usize, Instruction>::empty(),
    {
        Trace { name, image_base, instructions: HashMap::new(), first_address, last_address, addresses: Vec::new() }
    }

    /// Stores `instr` under its address, replacing an earlier summary there.
    pub fn insert_instruction(&mut self, instr: Instruction)
        requires
            old(self).wf(),
            successors_sorted(instr.successors@),
        ensures
            final(self).wf(),
            final(self).instructions@ == old(self).instructions@.insert(instr.address, instr),
            final(self).name == old(self).name,
            final(self).image_base == old(self).image_base,
            final(self).first_address == old(self).first_address,
            final(self).last_address == old(self).last_address,
    {
        let a = instr.address;
        if !self.instructions.contains_key(&a) {
            proof {
                assert(!old(self).addresses@.contains(a));
            }
            self.addresses.push(a);
            proof {
                assert forall|i: int, j: int| 0 <= i < j < self.addresses@.len()
                    implies self.addresses@[i] != self.addresses@[j] by {
                    if j == self.addresses@.len() - 1 {
                        assert(old(self).addresses@[i] == self.addresses@[i]);
                    }
                }
            }
        }
        self.instructions.insert(a, instr);
        proof {
            assert forall|b: usize| self.instructions@.contains_key(b) <==> self.addresses@.contains(b) by {
                if b == a {
                    assert(self.addresses@.contains(a)) by {
                        if !old(self).instructions@.contains_key(a) {
                            assert(self.addresses@[self.addresses@.len() - 1] == a);
                        }
                    }
                } else if old(self).addresses@.contains(b) {
                    let k = choose|k: int| 0 <= k < old(self).addresses@.len() && old(self).addresses@[k] == b;
                    assert(self.addresses@[k] == b);
                } else if self.addresses@.contains(b) {
                    let k = choose|k: int| 0 <= k < self.addresses@.len() && self.addresses@[k] == b;
                    assert(k < old(self).addresses@.len());
                    assert(old(self).addresses@[k] == b);
                }
            }
        }
    }

    /// Adds `s` to the successors of the summary at `from`, keeping them in
    /// ascending order; nothing changes when `from` was not visited.
    pub fn add_successor(&mut self, from: usize, s: Successor)
        requires
            old(self).wf(),
        ensures
            final(self).wf(),
            final(self).name == old(self).name,
            final(self).image_base == old(self).image_base,
            final(self).first_address == old(self).first_address,
            final(self).last_address == old(self).last_address,
            final(self).instructions@.dom() == old(self).instructions@.dom(),
            forall|a: usize| #[trigger] final(self).instructions@.contains_key(a) ==> {
                let n = final(self).instructions@[a];
                let o = old(self).instructions@[a];
                &&& n.address == o.address
                &&& successor_set(n.successors@) == if a == from {
                    successor_set(o.successors@).insert(s.address)
                } else {
                    successor_set(o.successors@)
                }
            },
    {
        match self.instructions.remove(&from) {
            Some(mut instr) => {
                insert_successor_sorted(&mut instr.successors, s);
                self.instructions.insert(from, instr);
                assert(self.instructions@ =~= old(self).instructions@.insert(from, instr));
            }
            None => {}
        }
    }

    /// The visited addresses, each once.
    pub fn visited_addresses(&self) -> (r: Vec<usize>)
        requires
            self.wf(),
        ensures
            r@.no_duplicates(),
            forall|a: usize| r@.contains(a) <==> self.instructions@.contains_key(a),
    {
        self.addresses.clone()
    }

    /// Name, image base, first and last address, separated by `;`.
    pub fn to_string(&self) -> (r: String)
        ensures
            r@ == self.name@ + seq![';'] + hex_padded(self.image_base as nat) + seq![';']
                + hex_padded(self.first_address as nat) + seq![';'] + hex_padded(self.last_address as nat),
    {
        let mut r = self.name.clone();
        push_char(&mut r, ';');
        let t = hex_padded_string(self.image_base as u64);
        push_str(&mut r, t.as_str());
        push_char(&mut r, ';');
        let t = hex_padded_string(self.first_address as u64);
        push_str(&mut r, t.as_str());
        push_char(&mut r, ';');
        let t = hex_padded_string(self.last_address as u64);
        push_str(&mut r, t.as_str());
        r
    }
}

/// The summaries at `a` of the traces of `ts` that visit it, in order.
pub open spec fn summaries_at(ts: Seq<Trace>, a: usize) -> Seq<Instruction>
    decreases ts.len(),
{
    if ts.len() == 0 {
        Seq::empty()
    } else {
        let prev = summaries_at(ts.drop_last(), a);
        if ts.last().instructions@.contains_key(a) {
            prev.push(ts.last().instructions@[a])
        } else {
            prev
        }
    }
}

/// Every summary of every trace of `ts`, each trace's in the order of its
/// addresses.
pub open spec fn all_summaries(ts: Seq<Trace>) -> Seq<Instruction>
    decreases ts.len(),
{
    if ts.len() == 0 {
        Seq::empty()
    } else {
        let t = ts.last();
        all_summaries(ts.drop_last()) + t.addresses@.map_values(|a: usize| t.instructions@[a])
    }
}

/// A labelled set of traces.
pub struct TraceVec(pub Vec<Trace>);

impl TraceVec {
    pub open spec fn wf(&self) -> bool {
        forall|i: int| 0 <= i < self.0@.len() ==> #[trigger] self.0@[i].wf()
    }

    pub fn from_vec(v: Vec<Trace>) -> (r: TraceVec)
        ensures
            r.0@ == v@,
    {
        TraceVec(v)
    }

    pub fn len(&self) -> (r: usize)
        ensures
            r == self.0@.len(),
    {
        self.0.len()
    }

    /// The traces, in order.
    pub fn iter(&self) -> (r: Vec<&Trace>)
        ensures
            r@.len() == self.0@.len(),
            forall|i: int| 0 <= i < r@.len() ==> *r@[i] == self.0@[i],
    {
        let mut r: Vec<&Trace> = Vec::new();
        let mut i: usize = 0;
        while i < self.0.len()
            invariant
                i <= self.0@.len(),
                r@.len() == i,
                forall|j: int| 0 <= j < i ==> *r@[j] == self.0@[j],
            decreases self.0@.len() - i,
        {
            r.push(&self.0[i]);
            i = i + 1;
        }
        r
    }

    /// The summaries at `address`, one per trace that visits it, in trace
    /// order.
    pub fn iter_instructions_at_address(&self, address: usize) -> (r: Vec<&Instruction>)
        ensures
            r@.len() == summaries_at(self.0@, address).len(),
            forall|i: int| 0 <= i < r@.len() ==> *r@[i] == summaries_at(self.0@, address)[i],
    {
        let mut r: Vec<&Instruction> = Vec::new();
        let mut i: usize = 0;
        while i < self.0.len()
            invariant
                i <= self.0@.len(),
                r@.len() == summaries_at(self.0@.subrange(0, i as int), address).len(),
                forall|j: int| 0 <= j < r@.len() ==> *r@[j] == summaries_at(self.0@.subrange(0, i as int), address)[j],
            decreases self.0@.len() - i,
        {
            proof {
                let s1 = self.0@.subrange(0, i + 1);
                assert(s1.drop_last() =~= self.0@.subrange(0, i as int));
                assert(s1.last() == self.0@[i as int]);
            }
            match self.0[i].instructions.get(&address) {
                Some(instr) => r.push(instr),
                None => {}
            }
            i = i + 1;
        }
        assert(self.0@.subrange(0, self.0@.len() as int) =~= self.0@);
        r
    }

    /// Every summary of every trace, trace by trace, each trace's in the
    /// order of its addresses.
    pub fn iter_all_instructions(&self) -> (r: Vec<&Instruction>)
        requires
            self.wf(),
        ensures
            r@.len() == all_summaries(self.0@).len(),
            forall|i: int| 0 <= i < r@.len() ==> *r@[i] == all_summaries(self.0@)[i],
    {
        let mut r: Vec<&Instruction> = Vec::new();
        let mut i: usize = 0;
        while i < self.0.len()
            invariant
                self.wf(),
                i <= self.0@.len(),
                r@.len() == all_summaries(self.0@.subrange(0, i as int)).len(),
                forall|j: int| 0 <= j < r@.len() ==> *r@[j] == all_summaries(self.0@.subrange(0, i as int))[j],
            decreases self.0@.len() - i,
        {
            let t = &self.0[i];
            assert(t.wf());
            let ghost base = all_summaries(self.0@.subrange(0, i as int));
            let mut k: usize = 0;
            while k < t.addresses.len()
                invariant
                    t.wf(),
                    k <= t.addresses@.len(),
                    r@.len() == base.len() + k,
                    forall|j: int| 0 <= j < base.len() ==> *r@[j] == base[j],
                    forall|j: int| 0 <= j < k ==> *r@[base.len() + j] == t.instructions@[t.addresses@[j]],
                decreases t.addresses@.len() - k,
            {
                let a = t.addresses[k];
                assert(t.addresses@.contains(a));
                r.push(t.instructions.get(&a).unwrap());
                k = k + 1;
            }
            proof {
                let s1 = self.0@.subrange(0, i + 1);
                assert(s1.drop_last() =~= self.0@.subrange(0, i as int));
                assert(s1.last() == *t);
                let add = t.addresses@.map_values(|a: usize| t.instructions@[a]);
                assert(all_summaries(s1) == base + add);
                assert forall|j: int| 0 <= j < r@.len() implies *r@[j] == (base + add)[j] by {
                    if j >= base.len() {
                        assert(add[j - base.len()] == t.instructions@[t.addresses@[j - base.len()]]);
                    }
                }
            }
            i = i + 1;
        }
        assert(self.0@.subrange(0, self.0@.len() as int) =~= self.0@);
        r
    }

    pub fn as_slice(&self) -> (r: &[Trace])
        ensures
            r@ == self.0@,
    {
        self.0.as_slice()
    }
}

} // verus!

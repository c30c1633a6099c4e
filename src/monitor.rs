//! The monitor's decisions: which candidates are armed, what a stop of a
//! traced thread means, and which predicates have fired, in order. The
//! debugger itself (spawning, breakpoints, stepping, memory reads) is
//! driven by the caller, who reports each stop and performs the returned
//! action.
use vstd::prelude::*;
use crate::monitor_predicate::{
    convert_predicate, spec_convert, Compare, DecodedInstruction, EdgeTransition, Predicate, ValueDestination,
};
use crate::predicates::{Score, SerializedPredicate};
use crate::register::UserRegs;

verus! {

/// A predicate armed at an instruction address.
#[derive(Clone, Copy, Debug)]
pub struct RootCauseCandidate {
    pub address: usize,
    pub score: Score,
    pub predicate: Predicate,
}

/// The value a comparison reads: a register after the step, an operand
/// address computed from the registers before it, or the word read at that
/// address masked by `1 << width` (the whole word when the width is 64 or
/// more).
pub open spec fn compared_value(d: ValueDestination, old: UserRegs, new: UserRegs, word: u64) -> u64 {
    match d {
        ValueDestination::Register(r) => r.spec_value(new),
        ValueDestination::Address(m) => m.spec_address(old),
        ValueDestination::Memory(width, m) => if width < 64 { word & (1u64 << (width as u64)) } else { word },
    }
}

/// Whether `p` holds for a step from `old` to `new`; `word` is the memory
/// word read for a memory comparison, `None` when it could not be read.
pub open spec fn spec_satisfied(p: Predicate, old: UserRegs, new: UserRegs, word: Option<u64>) -> bool {
    match p {
        Predicate::Compare(c) => {
            let needs_word = c.destination is Memory;
            if needs_word && word.is_none() {
                false
            } else {
                let v = compared_value(c.destination, old, new, word.unwrap_or(0)) as int;
                let t = c.value as int;
                match c.compare {
                    Compare::Equal => v == t,
                    Compare::Greater => v > t,
                    Compare::GreaterOrEqual => v >= t,
                    Compare::Less => v < t,
                    Compare::NotEqual => v != t,
                }
            }
        },
        Predicate::Edge(e) => match e.transition {
            EdgeTransition::Taken => old.rip as int == e.source as int && new.rip as int == e.destination as int,
            EdgeTransition::NotTaken => old.rip as int == e.source as int && new.rip as int != e.destination as int,
        },
        Predicate::Visited => true,
        Predicate::FlagSet(mask) => new.eflags & mask == mask,
    }
}

impl RootCauseCandidate {
    /// The address whose memory word a memory comparison reads, computed
    /// from the registers before the step.
    pub fn memory_read_address(&self, old_registers: &UserRegs) -> (r: Option<u64>)
        ensures
            r == match self.predicate {
                Predicate::Compare(c) => match c.destination {
                    ValueDestination::Memory(_, m) => Some(m.spec_address(*old_registers)),
                    _ => None,
                },
                _ => None,
            },
    {
        match self.predicate {
            Predicate::Compare(c) => match c.destination {
                ValueDestination::Memory(_, m) => Some(m.address(old_registers)),
                _ => None,
            },
            _ => None,
        }
    }

    /// Whether the predicate holds for the step from `old_registers` to
    /// `registers`.
    pub fn satisfied(&self, old_registers: &UserRegs, registers: &UserRegs, word: Option<u64>) -> (r: bool)
        ensures
            r == spec_satisfied(self.predicate, *old_registers, *registers, word),
    {
        match self.predicate {
            Predicate::Compare(c) => {
                let value: u64 = match c.destination {
                    ValueDestination::Register(reg) => reg.value(registers),
                    ValueDestination::Address(m) => m.address(old_registers),
                    ValueDestination::Memory(width, m) => match word {
                        Some(w) => if width < 64 { w & (1u64 << (width as u64)) } else { w },
                        None => return false,
                    },
                };
                let t = c.value as u64;
                assert(t as int == c.value as int);
                match c.compare {
                    Compare::Equal => value == t,
                    Compare::Greater => value > t,
                    Compare::GreaterOrEqual => value >= t,
                    Compare::Less => value < t,
                    Compare::NotEqual => value != t,
                }
            },
            Predicate::Edge(e) => match e.transition {
                EdgeTransition::Taken => old_registers.rip == e.source as u64 && registers.rip == e.destination as u64,
                EdgeTransition::NotTaken => old_registers.rip == e.source as u64 && registers.rip != e.destination as u64,
            },
            Predicate::Visited => true,
            Predicate::FlagSet(mask) => registers.eflags & mask == mask,
        }
    }
}

/// What the caller does after a stop.
#[derive(Clone, Copy, Debug, PartialEq, Eq, Structural)]
pub enum Resume {
    /// Single-step: some thread awaits its post-step stop.
    Step,
    /// Continue to the next breakpoint.
    Continue,
}

/// The outcome of one stop.
#[derive(Clone, Copy, Debug, PartialEq, Eq, Structural)]
pub struct StopOutcome {
    /// A breakpoint to remove, at the address of a fired predicate.
    pub remove_breakpoint: Option<usize>,
    pub resume: Resume,
}

/// The monitor's state for one traced process.
pub struct MonitorState {
    /// The armed candidates, one per address.
    pub candidates: Vec<RootCauseCandidate>,
    /// Threads that hit a candidate and await their post-step stop, with
    /// the registers at the hit.
    pub single_stepping: Vec<(i32, UserRegs)>,
    /// The fired predicates, in firing order.
    pub satisfaction: Vec<(usize, Predicate)>,
}

/// The addresses of a candidate list.
pub open spec fn candidate_addresses(c: Seq<RootCauseCandidate>) -> Seq<usize> {
    c.map_values(|x: RootCauseCandidate| x.address)
}

/// The addresses of a satisfaction list.
pub open spec fn fired_addresses(s: Seq<(usize, Predicate)>) -> Seq<usize> {
    s.map_values(|x: (usize, Predicate)| x.0)
}

impl MonitorState {
    /// Candidates and fired addresses are each listed once, no fired address
    /// is still armed, and each thread awaits at most one step.
    pub open spec fn wf(&self) -> bool {
        &&& candidate_addresses(self.candidates@).no_duplicates()
        &&& fired_addresses(self.satisfaction@).no_duplicates()
        &&& forall|a: usize| fired_addresses(self.satisfaction@).contains(a)
            ==> !candidate_addresses(self.candidates@).contains(a)
        &&& stepping_threads(self.single_stepping@).no_duplicates()
    }

    /// A state with the given candidates armed and nothing fired; a later
    /// candidate at an address replaces an earlier one.
    pub fn new(candidates: Vec<RootCauseCandidate>) -> (r: MonitorState)
        ensures
            r.wf(),
            r.satisfaction@.len() == 0,
            r.single_stepping@.len() == 0,
            forall|a: usize| candidate_addresses(r.candidates@).contains(a) <==> candidate_addresses(candidates@).contains(a),
    {
        let mut armed: Vec<RootCauseCandidate> = Vec::new();
        let mut k: usize = 0;
        while k < candidates.len()
            invariant
                k <= candidates@.len(),
                candidate_addresses(armed@).no_duplicates(),
                forall|a: usize| candidate_addresses(armed@).contains(a)
                    <==> candidate_addresses(candidates@.subrange(0, k as int)).contains(a),
            decreases candidates@.len() - k,
        {
            let c = candidates[k];
            let ghost before = armed@;
            match find_candidate(&armed, c.address) {
                Some(i) => {
                    armed.set(i, c);
                    proof {
                        assert(candidate_addresses(armed@) =~= candidate_addresses(before));
                        assert(candidate_addresses(before)[i as int] == c.address);
                        assert(candidate_addresses(before).contains(c.address));
                    }
                }
                None => {
                    armed.push(c);
                    proof {
                        assert(candidate_addresses(armed@) =~= candidate_addresses(before).push(c.address));
                    }
                }
            }
            proof {
                let s0 = candidates@.subrange(0, k as int);
                let s1 = candidates@.subrange(0, k + 1);
                assert(s1 =~= s0.push(c));
                assert(candidate_addresses(s1) =~= candidate_addresses(s0).push(c.address));
                assert forall|a: usize| candidate_addresses(armed@).contains(a)
                    <==> candidate_addresses(s1).contains(a) by {
                    if candidate_addresses(s1).contains(a) && a != c.address {
                        let i = choose|i: int| 0 <= i < candidate_addresses(s1).len() && candidate_addresses(s1)[i] == a;
                        assert(candidate_addresses(s0)[i] == a);
                    }
                    if candidate_addresses(s0).contains(a) {
                        let i = choose|i: int| 0 <= i < candidate_addresses(s0).len() && candidate_addresses(s0)[i] == a;
                        assert(candidate_addresses(s1)[i] == a);
                    }
                    if a == c.address {
                        assert(candidate_addresses(s1)[k as int] == a);
                    }
                    let ca = candidate_addresses(armed@);
                    let cb = candidate_addresses(before);
                    if ca.contains(a) && a != c.address {
                        let i = choose|i: int| 0 <= i < ca.len() && ca[i] == a;
                        assert(cb[i] == a);
                    }
                    if cb.contains(a) {
                        let i = choose|i: int| 0 <= i < cb.len() && cb[i] == a;
                        assert(ca[i] == a);
                    }
                    if a == c.address && !cb.contains(a) {
                        assert(ca[ca.len() - 1] == a);
                    }
                }
                assert(candidate_addresses(armed@).no_duplicates()) by {
                    let ca = candidate_addresses(armed@);
                    let cb = candidate_addresses(before);
                    assert forall|x: int, y: int| 0 <= x < y < ca.len() implies ca[x] != ca[y] by {
                        if y == cb.len() {
                            assert(cb.contains(ca[x]));
                        }
                    }
                }
            }
            k = k + 1;
        }
        assert(candidates@.subrange(0, candidates@.len() as int) =~= candidates@);
        let r = MonitorState { candidates: armed, single_stepping: Vec::new(), satisfaction: Vec::new() };
        assert(fired_addresses(r.satisfaction@) =~= Seq::<usize>::empty());
        assert(stepping_threads(r.single_stepping@) =~= Seq::<i32>::empty());
        r
    }
}

/// The thread ids of the pending single steps.
pub open spec fn stepping_threads(s: Seq<(i32, UserRegs)>) -> Seq<i32> {
    s.map_values(|x: (i32, UserRegs)| x.0)
}

fn find_thread(s: &Vec<(i32, UserRegs)>, pid: i32) -> (r: Option<usize>)
    ensures
        match r {
            Some(i) => i < s@.len() && s@[i as int].0 == pid,
            None => !stepping_threads(s@).contains(pid),
        },
{
    let mut k: usize = 0;
    while k < s.len()
        invariant
            k <= s@.len(),
            forall|j: int| 0 <= j < k ==> s@[j].0 != pid,
        decreases s@.len() - k,
    {
        if s[k].0 == pid {
            return Some(k);
        }
        k = k + 1;
    }
    proof {
        if stepping_threads(s@).contains(pid) {
            let j = choose|j: int| 0 <= j < stepping_threads(s@).len() && stepping_threads(s@)[j] == pid;
            assert(s@[j].0 == pid);
        }
    }
    None
}

/// Removing an entry keeps a list free of duplicates, and drops exactly
/// that entry's value when it was unique.
proof fn lemma_remove_unique<T>(s: Seq<T>, i: int)
    requires
        0 <= i < s.len(),
        s.no_duplicates(),
    ensures
        s.remove(i).no_duplicates(),
        forall|x: T| s.remove(i).contains(x) <==> s.contains(x) && x != s[i],
{
    let r = s.remove(i);
    assert forall|x: int, y: int| 0 <= x < y < r.len() implies r[x] != r[y] by {
        let xs = if x < i { x } else { x + 1 };
        let ys = if y < i { y } else { y + 1 };
        assert(r[x] == s[xs]);
        assert(r[y] == s[ys]);
    }
    assert forall|x: T| r.contains(x) <==> s.contains(x) && x != s[i] by {
        if r.contains(x) {
            let k = choose|k: int| 0 <= k < r.len() && r[k] == x;
            let ks = if k < i { k } else { k + 1 };
            assert(s[ks] == x);
        }
        if s.contains(x) && x != s[i] {
            let k = choose|k: int| 0 <= k < s.len() && s[k] == x;
            if k < i {
                assert(r[k] == x);
            } else {
                assert(r[k - 1] == x);
            }
        }
    }
}

/// Appending a value absent from a duplicate-free list keeps it so.
proof fn lemma_push_unique<T>(s: Seq<T>, x: T)
    requires
        s.no_duplicates(),
        !s.contains(x),
    ensures
        s.push(x).no_duplicates(),
        forall|y: T| s.push(x).contains(y) <==> s.contains(y) || y == x,
{
    let r = s.push(x);
    assert forall|a: int, b: int| 0 <= a < b < r.len() implies r[a] != r[b] by {
        if b == s.len() {
            assert(s.contains(r[a]));
        }
    }
    assert forall|y: T| r.contains(y) <==> s.contains(y) || y == x by {
        if r.contains(y) && y != x {
            let k = choose|k: int| 0 <= k < r.len() && r[k] == y;
            assert(s[k] == y);
        }
        if s.contains(y) {
            let k = choose|k: int| 0 <= k < s.len() && s[k] == y;
            assert(r[k] == y);
        }
        if y == x {
            assert(r[s.len() as int] == x);
        }
    }
}

/// The position of thread `pid` among the pending single steps.
pub open spec fn thread_index(ss: Seq<(i32, UserRegs)>, pid: i32) -> int {
    choose|t: int| 0 <= t < ss.len() && ss[t].0 == pid
}

/// The position of the candidate armed at `a`.
pub open spec fn candidate_index(c: Seq<RootCauseCandidate>, a: usize) -> int {
    choose|i: int| 0 <= i < c.len() && c[i].address == a
}

/// The address a candidate reads its memory word from, for the registers
/// saved at the hit.
pub open spec fn read_address(p: Predicate, r0: UserRegs) -> Option<u64> {
    match p {
        Predicate::Compare(c) => match c.destination {
            ValueDestination::Memory(_, m) => Some(m.spec_address(r0)),
            _ => None,
        },
        _ => None,
    }
}

proof fn lemma_thread_index(ss: Seq<(i32, UserRegs)>, pid: i32, t: int)
    requires
        stepping_threads(ss).no_duplicates(),
        0 <= t < ss.len(),
        ss[t].0 == pid,
    ensures
        thread_index(ss, pid) == t,
{
    let u = thread_index(ss, pid);
    assert(stepping_threads(ss)[t] == pid);
    assert(stepping_threads(ss)[u] == pid);
}

proof fn lemma_candidate_index(c: Seq<RootCauseCandidate>, a: usize, i: int)
    requires
        candidate_addresses(c).no_duplicates(),
        0 <= i < c.len(),
        c[i].address == a,
    ensures
        candidate_index(c, a) == i,
{
    let u = candidate_index(c, a);
    assert(candidate_addresses(c)[i] == a);
    assert(candidate_addresses(c)[u] == a);
}

impl MonitorState {
    /// The fired addresses, in firing order: the per-input ranking.
    pub fn ranking(&self) -> (r: Vec<usize>)
        requires
            self.wf(),
        ensures
            r@ == fired_addresses(self.satisfaction@),
            r@.no_duplicates(),
    {
        let mut r: Vec<usize> = Vec::new();
        let mut k: usize = 0;
        while k < self.satisfaction.len()
            invariant
                k <= self.satisfaction@.len(),
                r@ == fired_addresses(self.satisfaction@.subrange(0, k as int)),
            decreases self.satisfaction@.len() - k,
        {
            r.push(self.satisfaction[k].0);
            assert(fired_addresses(self.satisfaction@.subrange(0, k + 1))
                =~= fired_addresses(self.satisfaction@.subrange(0, k as int)).push(self.satisfaction@[k as int].0));
            k = k + 1;
        }
        assert(self.satisfaction@.subrange(0, self.satisfaction@.len() as int) =~= self.satisfaction@);
        r
    }

    /// The address whose memory word the pending evaluation of thread `pid`
    /// reads, if it awaits a step and its candidate compares a memory value.
    pub fn read_request(&self, pid: i32) -> (r: Option<u64>)
        requires
            self.wf(),
        ensures
            r == if stepping_threads(self.single_stepping@).contains(pid) {
                let r0 = self.single_stepping@[thread_index(self.single_stepping@, pid)].1;
                if candidate_addresses(self.candidates@).contains(r0.rip as usize) {
                    read_address(self.candidates@[candidate_index(self.candidates@, r0.rip as usize)].predicate, r0)
                } else {
                    None
                }
            } else {
                None
            },
    {
        match find_thread(&self.single_stepping, pid) {
            Some(t) => {
                let old = self.single_stepping[t].1;
                assert(stepping_threads(self.single_stepping@)[t as int] == pid);
                proof {
                    lemma_thread_index(self.single_stepping@, pid, t as int);
                }
                match find_candidate(&self.candidates, #[verifier::truncate] (old.rip as usize)) {
                    Some(i) => {
                        proof {
                            lemma_candidate_index(self.candidates@, self.candidates@[i as int].address, i as int);
                            assert(candidate_addresses(self.candidates@)[i as int] == self.candidates@[i as int].address);
                        }
                        self.candidates[i].memory_read_address(&old)
                    }
                    None => None,
                }
            }
            None => None,
        }
    }

    /// Handles a stop of thread `pid` with `registers`. A thread that
    /// awaited its step is evaluated against the candidate at the address
    /// it stepped from, with `word` the memory word read at `read_request`:
    /// when the predicate holds, the candidate is disarmed, recorded as
    /// fired and its breakpoint removed. Otherwise a thread stopped at an
    /// armed address saves its registers and awaits a step. The caller
    /// steps while any thread awaits one, and continues otherwise.
    pub fn on_stop(&mut self, pid: i32, registers: &UserRegs, word: Option<u64>) -> (r: StopOutcome)
        requires
            old(self).wf(),
        ensures
            final(self).wf(),
            final(self).satisfaction@.len() <= old(self).satisfaction@.len() + 1,
            final(self).satisfaction@.subrange(0, old(self).satisfaction@.len() as int) == old(self).satisfaction@,
            final(self).satisfaction@.len() == old(self).satisfaction@.len() + 1 ==> {
                let a = final(self).satisfaction@.last().0;
                &&& candidate_addresses(old(self).candidates@).contains(a)
                &&& !candidate_addresses(final(self).candidates@).contains(a)
                &&& r.remove_breakpoint == Some(a)
            },
            r.resume == (if final(self).single_stepping@.len() > 0 { Resume::Step } else { Resume::Continue }),
            ({
                let ss = old(self).single_stepping@;
                let c = old(self).candidates@;
                let sat = old(self).satisfaction@;
                if stepping_threads(ss).contains(pid) {
                    let t = thread_index(ss, pid);
                    let r0 = ss[t].1;
                    &&& final(self).single_stepping@ == ss.remove(t)
                    &&& if candidate_addresses(c).contains(r0.rip as usize) {
                        let i = candidate_index(c, r0.rip as usize);
                        if spec_satisfied(c[i].predicate, r0, *registers, word) {
                            &&& final(self).candidates@ == c.remove(i)
                            &&& final(self).satisfaction@ == sat.push((c[i].address, c[i].predicate))
                            &&& r.remove_breakpoint == Some(c[i].address)
                        } else {
                            &&& final(self).candidates@ == c
                            &&& final(self).satisfaction@ == sat
                            &&& r.remove_breakpoint.is_none()
                        }
                    } else {
                        &&& final(self).candidates@ == c
                        &&& final(self).satisfaction@ == sat
                        &&& r.remove_breakpoint == Some(r0.rip as usize)
                    }
                } else {
                    &&& final(self).candidates@ == c
                    &&& final(self).satisfaction@ == sat
                    &&& r.remove_breakpoint.is_none()
                    &&& final(self).single_stepping@ == if candidate_addresses(c).contains(registers.rip as usize) {
                        ss.push((pid, *registers))
                    } else {
                        ss
                    }
                }
            }),
    {
        let mut remove_breakpoint: Option<usize> = None;
        match find_thread(&self.single_stepping, pid) {
            Some(t) => {
                let ghost threads_before = stepping_threads(self.single_stepping@);
                proof {
                    lemma_thread_index(self.single_stepping@, pid, t as int);
                    assert(threads_before[t as int] == pid);
                    assert(threads_before.contains(pid));
                }
                let ghost ss0 = self.single_stepping@;
                let (_, old_registers) = self.single_stepping.remove(t);
                assert(old_registers == ss0[t as int].1);
                assert(self.single_stepping@ == ss0.remove(t as int));
                proof {
                    assert(stepping_threads(self.single_stepping@) =~= threads_before.remove(t as int));
                    lemma_remove_unique(threads_before, t as int);
                }
                let old_rip = #[verifier::truncate] (old_registers.rip as usize);
                match find_candidate(&self.candidates, old_rip) {
                    Some(i) => {
                        proof {
                            lemma_candidate_index(self.candidates@, old_rip, i as int);
                            assert(candidate_addresses(self.candidates@)[i as int] == old_rip);
                        }
                        if self.candidates[i].satisfied(&old_registers, registers, word) {
                            let ghost cands = candidate_addresses(self.candidates@);
                            let ghost fired = fired_addresses(self.satisfaction@);
                            let c = self.candidates.remove(i);
                            proof {
                                assert(cands[i as int] == c.address);
                                assert(candidate_addresses(self.candidates@) =~= cands.remove(i as int));
                                lemma_remove_unique(cands, i as int);
                                assert(cands.contains(c.address));
                                assert(!fired.contains(c.address));
                                lemma_push_unique(fired, c.address);
                            }
                            self.satisfaction.push((c.address, c.predicate));
                            proof {
                                assert(fired_addresses(self.satisfaction@) =~= fired.push(c.address));
                                assert forall|a: usize| fired_addresses(self.satisfaction@).contains(a)
                                    implies !candidate_addresses(self.candidates@).contains(a) by {
                                    if a != c.address {
                                        assert(fired.contains(a));
                                    }
                                }
                                assert(self.satisfaction@.subrange(0, old(self).satisfaction@.len() as int) =~= old(self).satisfaction@);
                            }
                            remove_breakpoint = Some(c.address);
                        } else {
                            assert(self.satisfaction@.subrange(0, old(self).satisfaction@.len() as int) =~= old(self).satisfaction@);
                        }
                    }
                    None => {
                        remove_breakpoint = Some(old_rip);
                        assert(self.satisfaction@.subrange(0, old(self).satisfaction@.len() as int) =~= old(self).satisfaction@);
                    }
                }
            }
            None => {
                let rip = #[verifier::truncate] (registers.rip as usize);
                let found = find_candidate(&self.candidates, rip);
                proof {
                    if let Some(i) = found {
                        assert(candidate_addresses(self.candidates@)[i as int] == rip);
                    }
                }
                if found.is_some() {
                    let ghost threads_before = stepping_threads(self.single_stepping@);
                    self.single_stepping.push((pid, *registers));
                    proof {
                        assert(stepping_threads(self.single_stepping@) =~= threads_before.push(pid));
                        lemma_push_unique(threads_before, pid);
                    }
                }
                assert(self.satisfaction@.subrange(0, old(self).satisfaction@.len() as int) =~= old(self).satisfaction@);
            }
        }
        let resume = if self.single_stepping.len() > 0 { Resume::Step } else { Resume::Continue };
        StopOutcome { remove_breakpoint, resume }
    }
}

/// The candidates that `ps` lowers to, in order: one per entry whose
/// instruction was decoded and whose name lowers to a runtime predicate.
pub open spec fn lowered(ps: Seq<(SerializedPredicate, Option<DecodedInstruction>)>) -> Seq<RootCauseCandidate>
    decreases ps.len(),
{
    if ps.len() == 0 {
        Seq::empty()
    } else {
        let prev = lowered(ps.drop_last());
        let p = ps.last();
        match p.1 {
            Some(d) => match spec_convert(p.0.name@, d) {
                Ok(Some(predicate)) => prev.push(RootCauseCandidate { address: p.0.address, score: p.0.score, predicate }),
                _ => prev,
            },
            None => prev,
        }
    }
}

/// The candidates of the exported predicates that lower to a runtime
/// predicate at a decoded instruction. A predicate whose instruction could
/// not be decoded, whose family the monitor does not support, or whose name
/// is malformed is left out.
pub fn convert_predicates(predicates: &Vec<(SerializedPredicate, Option<DecodedInstruction>)>) -> (r: Vec<RootCauseCandidate>)
    ensures
        r@ == lowered(predicates@),
{
    let mut r: Vec<RootCauseCandidate> = Vec::new();
    let mut i: usize = 0;
    while i < predicates.len()
        invariant
            i <= predicates@.len(),
            r@ == lowered(predicates@.subrange(0, i as int)),
        decreases predicates@.len() - i,
    {
        proof {
            let s1 = predicates@.subrange(0, i + 1);
            assert(s1.drop_last() =~= predicates@.subrange(0, i as int));
            assert(s1.last() == predicates@[i as int]);
        }
        let (p, decoded) = &predicates[i];
        match decoded {
            Some(instr) => {
                match convert_predicate(p.name.as_str(), instr) {
                    Ok(Some(predicate)) => {
                        r.push(RootCauseCandidate { address: p.address, score: p.score, predicate });
                    }
                    _ => {}
                }
            }
            None => {}
        }
        i = i + 1;
    }
    assert(predicates@.subrange(0, predicates@.len() as int) =~= predicates@);
    r
}

/// The position of the candidate at `address`, if armed.
pub fn find_candidate(c: &Vec<RootCauseCandidate>, address: usize) -> (r: Option<usize>)
    ensures
        match r {
            Some(i) => i < c@.len() && c@[i as int].address == address,
            None => !candidate_addresses(c@).contains(address),
        },
{
    let mut k: usize = 0;
    while k < c.len()
        invariant
            k <= c@.len(),
            forall|j: int| 0 <= j < k ==> c@[j].address != address,
        decreases c@.len() - k,
    {
        if c[k].address == address {
            return Some(k);
        }
        k = k + 1;
    }
    proof {
        if candidate_addresses(c@).contains(address) {
            let j = choose|j: int| 0 <= j < candidate_addresses(c@).len() && candidate_addresses(c@)[j] == address;
            assert(c@[j].address == address);
        }
    }
    None
}

} // verus!

use vstd::prelude::*;
use crate::kernel::isolation::ring3::{DomainId, DomainState};

verus! {

pub const MAX_PROCESSES: usize = 16;

/// Saved state of one schedulable process.
#[derive(Clone, Copy)]
pub struct ProcessControlBlock {
    pub id: DomainId,
    pub state: DomainState,
    pub rsp: u64,
}

impl ProcessControlBlock {
    pub fn empty() -> (p: Self)
        ensures
            p.id == DomainId(0),
            p.state == DomainState::Terminated,
            p.rsp == 0,
    {
        Self { id: DomainId(0), state: DomainState::Terminated, rsp: 0 }
    }
}

/// A process may be picked by the scheduler when it is ready or already running.
pub open spec fn runnable(s: DomainState) -> bool {
    s == DomainState::Ready || s == DomainState::Running
}

/// The slot reached `k` steps after `cur` in round-robin order over `count` slots.
pub open spec fn successor(cur: int, k: int, count: int) -> int {
    (cur + k) % count
}

/// The block of a freshly spawned process.
pub open spec fn spawned_block(id: u64, rsp: u64) -> ProcessControlBlock {
    ProcessControlBlock { id: DomainId(id), state: DomainState::Ready, rsp }
}

/// The same block with another state.
pub open spec fn with_state(p: ProcessControlBlock, state: DomainState) -> ProcessControlBlock {
    ProcessControlBlock { state, ..p }
}

/// `after` is `before` once the offset-`k` successor has been switched to by `sw`:
/// the current process is marked ready, the chosen one running and current.
pub open spec fn switched(
    before: PreemptiveScheduler,
    after: PreemptiveScheduler,
    sw: ContextSwitch,
    k: int,
) -> bool {
    let n = before.process_count as int;
    let cur = before.current_index as int;
    let next = successor(cur, k, n);
    let p = before.processes@;
    &&& after.process_count == before.process_count
    &&& after.current_index == next
    &&& after.processes@ == p.update(cur, with_state(p[cur], DomainState::Ready)).update(
        next,
        with_state(p[next], DomainState::Running),
    )
    &&& sw.from == cur
    &&& sw.to_rsp == p[next].rsp
}

/// One timer tick of the scheduler took `before` to `after` and asked for `r`: no
/// switch, and nothing changed, when fewer than two processes exist or no other
/// process can run; otherwise a switch to the first ready or running successor.
pub open spec fn ticked(
    before: PreemptiveScheduler,
    after: PreemptiveScheduler,
    r: Option<ContextSwitch>,
) -> bool {
    &&& after.process_count == before.process_count
    &&& r.is_none() <==> (before.process_count < 2 || !before.has_runnable_successor())
    &&& r.is_none() ==> after == before
    &&& r.is_some() ==> exists|k: int| #[trigger] before.is_next_offset(k) && switched(
        before,
        after,
        r->Some_0,
        k,
    )
}

/// The context switch that `schedule_next` asks the caller to perform: save the
/// stack pointer of slot `from` and resume on stack `to_rsp`.
#[derive(Clone, Copy, Debug, PartialEq, Eq, Structural)]
pub struct ContextSwitch {
    pub from: usize,
    pub to_rsp: u64,
}

/// A fixed-capacity round-robin scheduler.
pub struct PreemptiveScheduler {
    pub processes: [ProcessControlBlock; 16],
    pub current_index: usize,
    pub process_count: usize,
}

impl PreemptiveScheduler {
    /// Spawned processes fit in the table and the current slot is one of them.
    pub open spec fn wf(&self) -> bool {
        &&& self.process_count <= MAX_PROCESSES
        &&& if self.process_count == 0 {
            self.current_index == 0
        } else {
            self.current_index < self.process_count
        }
    }

    /// The table is not overfull and, once two processes exist, the current slot is
    /// one of them: what a tick needs to run.
    pub open spec fn schedulable(&self) -> bool {
        &&& self.process_count <= MAX_PROCESSES
        &&& self.process_count >= 2 ==> self.current_index < self.process_count
    }

    /// Offset `k` (1 <= k < count) is the first runnable successor of the current slot.
    pub open spec fn is_next_offset(&self, k: int) -> bool {
        let n = self.process_count as int;
        let cur = self.current_index as int;
        &&& 1 <= k < n
        &&& runnable(self.processes@[successor(cur, k, n)].state)
        &&& forall|j: int|
            1 <= j < k ==> !runnable(#[trigger] self.processes@[successor(cur, j, n)].state)
    }

    /// Some process other than the current one is runnable.
    pub open spec fn has_runnable_successor(&self) -> bool {
        exists|k: int| 1 <= k < self.process_count && #[trigger] runnable(
            self.processes@[successor(self.current_index as int, k, self.process_count as int)].state,
        )
    }

    pub fn new() -> (s: Self)
        ensures
            s.wf(),
            s.current_index == 0,
            s.process_count == 0,
            forall|i: int|
                0 <= i < MAX_PROCESSES ==> #[trigger] s.processes@[i] == with_state(
                    spawned_block(0, 0),
                    DomainState::Terminated,
                ),
    {
        Self { processes: [ProcessControlBlock::empty(); 16], current_index: 0, process_count: 0 }
    }

    /// Registers a new ready process in the next free slot.
    pub fn spawn(&mut self, id: u64, stack_pointer: u64) -> (r: Result<usize, &'static str>)
        ensures
            r.is_ok() <==> old(self).process_count < MAX_PROCESSES,
            r.is_ok() ==> {
                &&& r->Ok_0 == old(self).process_count
                &&& final(self).process_count == old(self).process_count + 1
                &&& final(self).processes@ == old(self).processes@.update(
                    old(self).process_count as int,
                    spawned_block(id, stack_pointer),
                )
                &&& final(self).current_index == old(self).current_index
            },
            r.is_err() ==> {
                &&& *final(self) == *old(self)
                &&& r->Err_0@ == "Scheduler queue full"@
            },
            old(self).wf() ==> final(self).wf(),
    {
        if self.process_count >= MAX_PROCESSES {
            return Err("Scheduler queue full");
        }
        let idx = self.process_count;
        self.processes[idx] = ProcessControlBlock {
            id: DomainId(id),
            state: DomainState::Ready,
            rsp: stack_pointer,
        };
        self.process_count += 1;
        Ok(idx)
    }

    /// Round-robin decision taken on a timer tick. Picks the first ready or running
    /// process after the current one, marks the current one ready and the chosen one
    /// running, and returns the context switch to perform. Returns `None`, with
    /// nothing changed, when fewer than two processes exist or no other process can run.
    pub fn schedule_next(&mut self) -> (r: Option<ContextSwitch>)
        requires
            old(self).schedulable(),
        ensures
            final(self).schedulable(),
            old(self).wf() ==> final(self).wf(),
            ticked(*old(self), *final(self), r),
    {
        if self.process_count < 2 {
            return None;
        }
        let count = self.process_count;
        let current_idx = self.current_index;
        let mut next_idx = (current_idx + 1) % count;
        let ghost mut k: int = 1;
        assert(next_idx == successor(current_idx as int, 1, count as int));

        while self.processes[next_idx].state != DomainState::Ready
            && self.processes[next_idx].state != DomainState::Running
            invariant
                self.wf(),
                self.process_count == count,
                self.current_index == current_idx,
                count >= 2,
                current_idx < count,
                1 <= k < count,
                next_idx == successor(current_idx as int, k, count as int),
                forall|j: int|
                    1 <= j < k ==> !runnable(
                        #[trigger] self.processes@[successor(current_idx as int, j, count as int)].state,
                    ),
            decreases count - k,
        {
            proof {
                assert(!runnable(self.processes@[successor(current_idx as int, k, count as int)].state));
                lemma_successor_step(current_idx as int, k, count as int);
            }
            next_idx = (next_idx + 1) % count;
            proof {
                k = k + 1;
            }
            if next_idx == current_idx {
                proof {
                    lemma_successor_full_circle(current_idx as int, count as int);
                    assert(k == count);
                    assert forall|j: int| 1 <= j < count implies !runnable(
                        #[trigger] self.processes@[successor(current_idx as int, j, count as int)].state,
                    ) by {}
                }
                return None;
            }
            proof {
                lemma_successor_full_circle(current_idx as int, count as int);
            }
        }
        proof {
            lemma_successor_not_current(current_idx as int, k, count as int);
            assert(self.is_next_offset(k));
            assert(runnable(self.processes@[successor(current_idx as int, k, count as int)].state));
        }
        if current_idx == next_idx {
            return None;
        }
        let ghost p = self.processes@;
        let cur_pcb = self.processes[current_idx];
        self.processes[current_idx] = ProcessControlBlock { state: DomainState::Ready, ..cur_pcb };
        let next_pcb = self.processes[next_idx];
        self.processes[next_idx] = ProcessControlBlock { state: DomainState::Running, ..next_pcb };
        self.current_index = next_idx;
        let new_rsp = self.processes[next_idx].rsp;
        proof {
            assert(new_rsp == p[next_idx as int].rsp);
        }
        Some(ContextSwitch { from: current_idx, to_rsp: new_rsp })
    }
}

proof fn lemma_successor_step(cur: int, k: int, n: int)
    requires
        n > 1,
        0 <= cur < n,
        0 <= k,
    ensures
        (successor(cur, k, n) + 1) % n == successor(cur, k + 1, n),
        0 <= successor(cur, k, n) < n,
{
    vstd::arithmetic::div_mod::lemma_add_mod_noop(cur + k, 1, n);
    vstd::arithmetic::div_mod::lemma_mod_bound(cur + k, n);
    vstd::arithmetic::div_mod::lemma_small_mod(1nat, n as nat);
}

proof fn lemma_successor_full_circle(cur: int, n: int)
    requires
        n > 0,
        0 <= cur < n,
    ensures
        forall|k: int| 1 <= k <= n ==> (#[trigger] successor(cur, k, n) == cur <==> k == n),
{
    assert forall|k: int| 1 <= k <= n implies (#[trigger] successor(cur, k, n) == cur <==> k == n) by {
        if k == n {
            vstd::arithmetic::div_mod::lemma_mod_add_multiples_vanish(cur, n);
            vstd::arithmetic::div_mod::lemma_small_mod(cur as nat, n as nat);
        } else {
            lemma_successor_not_current(cur, k, n);
        }
    }
}

proof fn lemma_successor_not_current(cur: int, k: int, n: int)
    requires
        n > 0,
        0 <= cur < n,
        1 <= k < n,
    ensures
        successor(cur, k, n) != cur,
        0 <= successor(cur, k, n) < n,
{
    if cur + k < n {
        vstd::arithmetic::div_mod::lemma_small_mod((cur + k) as nat, n as nat);
    } else {
        vstd::arithmetic::div_mod::lemma_mod_sub_multiples_vanish(cur + k, n);
        vstd::arithmetic::div_mod::lemma_small_mod((cur + k - n) as nat, n as nat);
    }
}

/// Round robin: when every process is ready or running, a timer tick always moves
/// on to the very next slot, wrapping around after the last one.
pub proof fn law_round_robin_all_runnable(s: PreemptiveScheduler, k: int)
    requires
        s.wf(),
        s.process_count >= 2,
        forall|i: int| 0 <= i < s.process_count ==> runnable(#[trigger] s.processes@[i].state),
        s.is_next_offset(k),
    ensures
        k == 1,
        successor(s.current_index as int, k, s.process_count as int) == (s.current_index + 1) % (
        s.process_count as int),
{
    let n = s.process_count as int;
    let cur = s.current_index as int;
    lemma_successor_not_current(cur, 1, n);
    if k > 1 {
        assert(!runnable(s.processes@[successor(cur, 1, n)].state));
    }
}

/// Every one of the first `count` processes is ready or running.
pub open spec fn all_runnable(s: PreemptiveScheduler) -> bool {
    forall|i: int| 0 <= i < s.process_count ==> runnable(#[trigger] s.processes@[i].state)
}

/// One tick when every process can run: a switch happens, from the current slot to
/// the next one, which becomes running, and every process can still run.
proof fn lemma_tick_all_runnable(s: PreemptiveScheduler, t: PreemptiveScheduler, r: Option<ContextSwitch>)
    requires
        s.wf(),
        s.process_count >= 2,
        all_runnable(s),
        ticked(s, t, r),
    ensures
        r is Some,
        r->Some_0.from == s.current_index,
        t.current_index == (s.current_index + 1) % (s.process_count as int),
        t.process_count == s.process_count,
        t.wf(),
        all_runnable(t),
        t.processes@[t.current_index as int].state == DomainState::Running,
{
    let n = s.process_count as int;
    let cur = s.current_index as int;
    lemma_successor_not_current(cur, 1, n);
    assert(runnable(s.processes@[successor(cur, 1, n)].state));
    assert(s.has_runnable_successor());
    let k = choose|k: int| #[trigger] s.is_next_offset(k) && switched(s, t, r->Some_0, k);
    law_round_robin_all_runnable(s, k);
    let next = successor(cur, 1, n);
    assert forall|i: int| 0 <= i < t.process_count implies runnable(#[trigger] t.processes@[i].state) by {
        if i != cur && i != next {
            assert(t.processes@[i] == s.processes@[i]);
        }
    }
}

/// Round robin over many ticks: when every process is ready or running, the `i`-th
/// tick switches away from the current slot, and after `i` ticks the current slot is
/// `i` places further on, wrapping around, and running; so `count` consecutive ticks
/// make each process the running one exactly once.
pub proof fn law_round_robin_rotation(states: Seq<PreemptiveScheduler>, results: Seq<Option<ContextSwitch>>)
    requires
        states.len() == results.len() + 1,
        states[0].wf(),
        states[0].process_count >= 2,
        all_runnable(states[0]),
        forall|i: int| 0 <= i < results.len() ==> ticked(states[i], states[i + 1], #[trigger] results[i]),
    ensures
        forall|i: int|
            0 <= i < states.len() ==> {
                &&& (#[trigger] states[i]).process_count == states[0].process_count
                &&& states[i].current_index == (states[0].current_index + i) % (
                states[0].process_count as int)
                &&& states[i].wf()
                &&& all_runnable(states[i])
            },
        forall|i: int|
            1 <= i < states.len() ==> (#[trigger] states[i]).processes@[states[i].current_index as int].state
                == DomainState::Running,
        forall|i: int|
            0 <= i < results.len() ==> (#[trigger] results[i]) is Some && results[i]->Some_0.from
                == states[i].current_index,
    decreases results.len(),
{
    let n = states[0].process_count as int;
    let c = states[0].current_index as int;
    vstd::arithmetic::div_mod::lemma_small_mod(c as nat, n as nat);
    if results.len() > 0 {
        let m = results.len() - 1;
        let pre_s = states.drop_last();
        let pre_r = results.drop_last();
        assert forall|i: int| 0 <= i < pre_r.len() implies ticked(
            pre_s[i],
            pre_s[i + 1],
            #[trigger] pre_r[i],
        ) by {
            assert(ticked(states[i], states[i + 1], results[i]));
        }
        law_round_robin_rotation(pre_s, pre_r);
        assert(pre_s[m] == states[m]);
        assert(ticked(states[m], states[m + 1], results[m]));
        lemma_tick_all_runnable(states[m], states[m + 1], results[m]);
        lemma_successor_step(c, m, n);
        assert forall|i: int|
            0 <= i < states.len() implies {
                &&& (#[trigger] states[i]).process_count == states[0].process_count
                &&& states[i].current_index == (states[0].current_index + i) % (
                states[0].process_count as int)
                &&& states[i].wf()
                &&& all_runnable(states[i])
            } by {
            if i < states.len() - 1 {
                assert(pre_s[i] == states[i]);
            }
        }
        assert forall|i: int|
            1 <= i < states.len() implies (#[trigger] states[i]).processes@[states[i].current_index as int].state
                == DomainState::Running by {
            if i < states.len() - 1 {
                assert(pre_s[i] == states[i]);
            }
        }
        assert forall|i: int|
            0 <= i < results.len() implies (#[trigger] results[i]) is Some && results[i]->Some_0.from
                == states[i].current_index by {
            if i < m {
                assert(pre_r[i] == results[i]);
                assert(pre_s[i] == states[i]);
            }
        }
    }
}

} // verus!

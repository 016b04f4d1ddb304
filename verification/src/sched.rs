//! Round-robin scheduling decisions for cooperative kernel tasks. The
//! caller owns the stacks and performs the context switches that these
//! decisions call for.

use vstd::prelude::*;

verus! {

pub type TaskId = u64;

/// Timer ticks between two requests to reschedule.
pub const QUANTUM_TICKS: u64 = 5;

#[derive(Clone, Copy, Debug, PartialEq, Eq, Structural)]
pub enum TaskState {
    Running,
    Ready,
    Sleeping,
    Exited,
}

/// A task's state as the scheduler keeps it: sleepers carry their wake tick.
#[derive(Clone, Copy, Debug, PartialEq, Eq, Structural)]
pub enum RunState {
    Running,
    Ready,
    Sleeping(u64),
    Exited,
}

#[derive(Clone, Copy, Debug)]
pub struct Task {
    pub id: TaskId,
    pub name: &'static str,
    pub state: RunState,
}

#[derive(Clone, Copy, Debug)]
pub struct TaskInfo {
    pub id: TaskId,
    pub name: &'static str,
    pub state: TaskState,
    pub wake_tick: Option<u64>,
}

#[derive(Clone, Copy, Debug)]
pub struct SchedulerStats {
    pub initialized: bool,
    pub total: usize,
    pub running: usize,
    pub ready: usize,
    pub sleeping: usize,
    pub exited: usize,
    pub context_switches: u64,
    pub heartbeat: u64,
}

impl Default for SchedulerStats {
    fn default() -> (r: Self)
        ensures
            !r.initialized,
            r.total == 0 && r.running == 0 && r.ready == 0 && r.sleeping == 0 && r.exited == 0,
            r.context_switches == 0 && r.heartbeat == 0,
    {
        SchedulerStats {
            initialized: false,
            total: 0,
            running: 0,
            ready: 0,
            sleeping: 0,
            exited: 0,
            context_switches: 0,
            heartbeat: 0,
        }
    }
}

/// A switch of the CPU from task `from` to task `to`.
#[derive(Clone, Copy, Debug, PartialEq, Eq, Structural)]
pub struct Switch {
    pub from: usize,
    pub to: usize,
}

/// Whether a timer interrupt at `tick` asks for a reschedule.
pub fn on_timer_tick(initialized: bool, tick: u64) -> (r: bool)
    ensures
        r == (initialized && tick % QUANTUM_TICKS == 0),
{
    initialized && tick % QUANTUM_TICKS == 0
}

/// The task `offset` places after `current`, going round.
pub open spec fn after(len: int, current: int, offset: int) -> int {
    (current + offset) % len
}

/// The first ready task at `offset` or more places after `current`, short of
/// coming back round to it.
pub open spec fn scan_ready(s: Seq<Task>, current: int, offset: int) -> Option<int>
    decreases s.len() - offset,
{
    if offset < 1 || offset >= s.len() {
        None
    } else if s[after(s.len() as int, current, offset)].state == RunState::Ready {
        Some(after(s.len() as int, current, offset))
    } else {
        scan_ready(s, current, offset + 1)
    }
}

/// The task to run after `current`: the first ready one that follows it.
pub open spec fn next_ready_of(s: Seq<Task>, current: int) -> Option<int> {
    if s.len() <= 1 {
        None
    } else {
        scan_ready(s, current, 1)
    }
}

/// The tasks once every sleeper whose wake tick has come is ready.
pub open spec fn woken(s: Seq<Task>, now: u64) -> Seq<Task> {
    s.map_values(
        |t: Task|
            match t.state {
                RunState::Sleeping(until) => if now >= until {
                    Task { state: RunState::Ready, ..t }
                } else {
                    t
                },
                _ => t,
            },
    )
}

/// Exactly one task runs, the current one, and ids are below the next id
/// and all different.
pub open spec fn tasks_ok(s: Seq<Task>, current: int, next_id: u64) -> bool {
    &&& s.len() > 0 ==> 0 <= current < s.len() && s[current].state == RunState::Running
    &&& forall|j: int| 0 <= j < s.len() && j != current ==> (#[trigger] s[j]).state != RunState::Running
    &&& forall|j: int| 0 <= j < s.len() ==> (#[trigger] s[j]).id < next_id
    &&& forall|j: int, k: int| 0 <= j < k < s.len() ==> (#[trigger] s[j]).id != (#[trigger] s[k]).id
}

pub struct Scheduler {
    tasks: Vec<Task>,
    current: usize,
    next_id: TaskId,
    context_switches: u64,
}

impl Scheduler {
    pub closed spec fn wf(&self) -> bool {
        tasks_ok(self.tasks@, self.current as int, self.next_id)
    }

    /// The tasks, in the order they were made.
    pub closed spec fn task_list(&self) -> Seq<Task> {
        self.tasks@
    }

    /// The index of the running task.
    pub closed spec fn current_index(&self) -> int {
        self.current as int
    }

    /// The id the next task gets.
    pub closed spec fn next_task_id(&self) -> u64 {
        self.next_id
    }

    /// The number of switches so far.
    pub closed spec fn switches(&self) -> u64 {
        self.context_switches
    }

    pub fn new() -> (r: Self)
        ensures
            r.wf(),
            r.task_list().len() == 0,
            r.current_index() == 0,
            r.next_task_id() == 1,
            r.switches() == 0,
    {
        Scheduler { tasks: Vec::new(), current: 0, next_id: 1, context_switches: 0 }
    }

    pub fn task_count(&self) -> (r: usize)
        ensures
            r == self.task_list().len(),
    {
        self.tasks.len()
    }

    pub fn current(&self) -> (r: usize)
        ensures
            r == self.current_index(),
    {
        self.current
    }

    /// Adopts the code running now as task 0, "boot".
    pub fn init(&mut self)
        requires
            old(self).task_list().len() == 0,
        ensures
            final(self).wf(),
            final(self).task_list() == seq![Task { id: 0, name: "boot", state: RunState::Running }],
            final(self).current_index() == 0,
            final(self).next_task_id() == 1,
            final(self).switches() == 0,
    {
        let mut tasks: Vec<Task> = Vec::new();
        tasks.push(Task { id: 0, name: "boot", state: RunState::Running });
        *self = Scheduler { tasks, current: 0, next_id: 1, context_switches: 0 };
        proof {
            assert(self.tasks@ =~= seq![Task { id: 0, name: "boot", state: RunState::Running }]);
        }
    }

    /// Adds a ready task named `name` and gives its id; `None` once ids run
    /// out.
    pub fn spawn(&mut self, name: &'static str) -> (r: Option<TaskId>)
        requires
            old(self).wf(),
            old(self).task_list().len() > 0,
        ensures
            final(self).wf(),
            final(self).current_index() == old(self).current_index(),
            final(self).switches() == old(self).switches(),
            old(self).next_task_id() == u64::MAX ==> r is None && *final(self) == *old(self),
            old(self).next_task_id() < u64::MAX ==> {
                &&& r == Some(old(self).next_task_id())
                &&& final(self).next_task_id() == old(self).next_task_id() + 1
                &&& final(self).task_list() == old(self).task_list().push(
                    Task { id: old(self).next_task_id(), name, state: RunState::Ready },
                )
            },
    {
        let id = self.next_id;
        if id == u64::MAX {
            return None;
        }
        self.next_id = id + 1;
        self.tasks.push(Task { id, name, state: RunState::Ready });
        proof {
            let s = self.tasks@;
            assert forall|j: int, k: int| 0 <= j < k < s.len() implies (#[trigger] s[j]).id != (
            #[trigger] s[k]).id by {
                if k == s.len() - 1 {
                    assert(s[j] == old(self).tasks@[j]);
                } else {
                    assert(s[j] == old(self).tasks@[j] && s[k] == old(self).tasks@[k]);
                }
            }
            assert(s[self.current as int] == old(self).tasks@[self.current as int]);
            assert forall|j: int| 0 <= j < s.len() && j != self.current implies (#[trigger] s[j]).state
                != RunState::Running by {
                if j < s.len() - 1 {
                    assert(s[j] == old(self).tasks@[j]);
                }
            }
            assert forall|j: int| 0 <= j < s.len() implies (#[trigger] s[j]).id < self.next_id by {
                if j < s.len() - 1 {
                    assert(s[j] == old(self).tasks@[j]);
                }
            }
        }
        Some(id)
    }

    /// Makes ready every sleeper whose wake tick is at most `now`.
    pub fn wake_sleepers(&mut self, now: u64)
        requires
            old(self).wf(),
        ensures
            final(self).wf(),
            final(self).task_list() == woken(old(self).task_list(), now),
            final(self).current_index() == old(self).current_index(),
            final(self).next_task_id() == old(self).next_task_id(),
            final(self).switches() == old(self).switches(),
    {
        let ghost s = self.tasks@;
        let mut i: usize = 0;
        while i < self.tasks.len()
            invariant
                self.current == old(self).current,
                self.next_id == old(self).next_id,
                self.context_switches == old(self).context_switches,
                s == old(self).tasks@,
                self.tasks@.len() == s.len(),
                i <= s.len(),
                forall|j: int| 0 <= j < i ==> self.tasks@[j] == woken(s, now)[j],
                forall|j: int| i <= j < s.len() ==> self.tasks@[j] == s[j],
            decreases s.len() - i,
        {
            let task = self.tasks[i];
            match task.state {
                RunState::Sleeping(until) => {
                    if now >= until {
                        self.tasks.set(i, Task { state: RunState::Ready, ..task });
                    }
                },
                _ => {},
            }
            i += 1;
        }
        proof {
            assert(self.tasks@ =~= woken(s, now));
            let w = woken(s, now);
            assert forall|j: int| 0 <= j < w.len() implies (#[trigger] w[j]).id == s[j].id && (w[j].state
                == RunState::Running <==> s[j].state == RunState::Running) by {}
        }
    }

    /// The next ready task after the current one, round robin.
    pub fn next_ready(&self) -> (r: Option<usize>)
        requires
            self.wf(),
        ensures
            r matches Some(i) ==> next_ready_of(self.task_list(), self.current_index()) == Some(i as int),
            r is None ==> next_ready_of(self.task_list(), self.current_index()) is None,
    {
        let len = self.tasks.len();
        if len <= 1 {
            return None;
        }
        let ghost s = self.tasks@;
        let mut offset: usize = 1;
        while offset < len
            invariant
                s == self.tasks@,
                len == s.len(),
                len > 1,
                self.current < len,
                1 <= offset <= len,
                scan_ready(s, self.current as int, 1) == scan_ready(s, self.current as int, offset as int),
            decreases len - offset,
        {
            let rest = len - self.current;
            let index = if offset < rest {
                self.current + offset
            } else {
                offset - rest
            };
            proof {
                let c = self.current as int;
                let o = offset as int;
                if o < rest {
                    vstd::arithmetic::div_mod::lemma_small_mod((c + o) as nat, len as nat);
                } else {
                    vstd::arithmetic::div_mod::lemma_mod_sub_multiples_vanish(c + o, len as int);
                    vstd::arithmetic::div_mod::lemma_small_mod((c + o - len) as nat, len as nat);
                }
                assert(index as int == after(len as int, c, o));
            }
            if self.tasks[index].state == RunState::Ready {
                return Some(index);
            }
            offset += 1;
        }
        None
    }

    /// Hands the CPU from the current task, whose state becomes `leaving`,
    /// to the next ready task once sleepers due at `now` are woken. Where
    /// none is ready nothing changes but the sleepers woken.
    fn hand_over(&mut self, now: u64, leaving: RunState) -> (r: Option<Switch>)
        requires
            old(self).wf(),
            old(self).task_list().len() > 0,
            leaving != RunState::Running,
        ensures
            final(self).wf(),
            final(self).next_task_id() == old(self).next_task_id(),
            ({
                let s = woken(old(self).task_list(), now);
                let c = old(self).current_index();
                match next_ready_of(s, c) {
                    None => {
                        &&& r is None
                        &&& final(self).task_list() == s
                        &&& final(self).current_index() == c
                        &&& final(self).switches() == old(self).switches()
                    },
                    Some(n) => {
                        &&& r == Some(Switch { from: c as usize, to: n as usize })
                        &&& final(self).task_list() == s.update(c, Task { state: leaving, ..s[c] }).update(
                            n,
                            Task { state: RunState::Running, ..s[n] },
                        )
                        &&& final(self).current_index() == n
                        &&& final(self).switches() == if old(self).switches() == u64::MAX {
                            u64::MAX
                        } else {
                            (old(self).switches() + 1) as u64
                        }
                    },
                }
            }),
    {
        self.wake_sleepers(now);
        let current = self.current;
        let next = match self.next_ready() {
            Some(next) => next,
            None => return None,
        };
        proof {
            lemma_scan_ready(self.tasks@, current as int, 1);
        }
        let leaving_task = self.tasks[current];
        self.tasks.set(current, Task { state: leaving, ..leaving_task });
        let arriving = self.tasks[next];
        self.tasks.set(next, Task { state: RunState::Running, ..arriving });
        self.current = next;
        self.context_switches = self.context_switches.saturating_add(1);
        proof {
            let s = self.tasks@;
            assert forall|j: int| 0 <= j < s.len() && j != next implies (#[trigger] s[j]).state
                != RunState::Running by {}
            assert forall|j: int| 0 <= j < s.len() implies (#[trigger] s[j]).id < self.next_id by {}
        }
        Some(Switch { from: current, to: next })
    }

    /// The current task gives way to the next ready one, if any.
    pub fn yield_now(&mut self, now: u64) -> (r: Option<Switch>)
        requires
            old(self).wf(),
            old(self).task_list().len() > 0,
        ensures
            final(self).wf(),
            final(self).next_task_id() == old(self).next_task_id(),
            ({
                let s = woken(old(self).task_list(), now);
                let c = old(self).current_index();
                match next_ready_of(s, c) {
                    None => r is None && final(self).task_list() == s && final(self).current_index() == c,
                    Some(n) => {
                        &&& r == Some(Switch { from: c as usize, to: n as usize })
                        &&& final(self).task_list() == s.update(c, Task { state: RunState::Ready, ..s[c] }).update(
                            n,
                            Task { state: RunState::Running, ..s[n] },
                        )
                        &&& final(self).current_index() == n
                    },
                }
            }),
    {
        self.hand_over(now, RunState::Ready)
    }

    /// The current task sleeps until tick `wake`, giving way to the next
    /// ready task; where none is ready it keeps the CPU (and waits).
    pub fn sleep(&mut self, now: u64, wake: u64) -> (r: Option<Switch>)
        requires
            old(self).wf(),
            old(self).task_list().len() > 0,
        ensures
            final(self).wf(),
            final(self).next_task_id() == old(self).next_task_id(),
            ({
                let s = woken(old(self).task_list(), now);
                let c = old(self).current_index();
                match next_ready_of(s, c) {
                    None => r is None && final(self).task_list() == s && final(self).current_index() == c,
                    Some(n) => {
                        &&& r == Some(Switch { from: c as usize, to: n as usize })
                        &&& final(self).task_list() == s.update(c, Task { state: RunState::Sleeping(wake), ..s[c] }).update(
                            n,
                            Task { state: RunState::Running, ..s[n] },
                        )
                        &&& final(self).current_index() == n
                    },
                }
            }),
    {
        self.hand_over(now, RunState::Sleeping(wake))
    }

    /// The current task ends, giving way to the next ready task; `None` where
    /// no task is ready to follow it, and the current task is left as it was.
    pub fn exit_current(&mut self, now: u64) -> (r: Option<Switch>)
        requires
            old(self).wf(),
            old(self).task_list().len() > 0,
        ensures
            final(self).wf(),
            final(self).next_task_id() == old(self).next_task_id(),
            ({
                let s = woken(old(self).task_list(), now);
                let c = old(self).current_index();
                match next_ready_of(s, c) {
                    None => r is None && final(self).task_list() == s && final(self).current_index() == c,
                    Some(n) => {
                        &&& r == Some(Switch { from: c as usize, to: n as usize })
                        &&& final(self).task_list() == s.update(c, Task { state: RunState::Exited, ..s[c] }).update(
                            n,
                            Task { state: RunState::Running, ..s[n] },
                        )
                        &&& final(self).current_index() == n
                    },
                }
            }),
    {
        self.hand_over(now, RunState::Exited)
    }

    /// Counts of tasks by state, with the switch count and `heartbeat`.
    pub fn stats(&self, heartbeat: u64) -> (r: SchedulerStats)
        requires
            self.wf(),
        ensures
            r.initialized,
            r.total == self.task_list().len(),
            r.running == count_state(self.task_list(), 0),
            r.ready == count_state(self.task_list(), 1),
            r.sleeping == count_state(self.task_list(), 2),
            r.exited == count_state(self.task_list(), 3),
            r.context_switches == self.switches(),
            r.heartbeat == heartbeat,
    {
        let mut stats = SchedulerStats {
            initialized: true,
            total: self.tasks.len(),
            running: 0,
            ready: 0,
            sleeping: 0,
            exited: 0,
            context_switches: self.context_switches,
            heartbeat,
        };
        let mut i: usize = 0;
        while i < self.tasks.len()
            invariant
                i <= self.tasks@.len(),
                stats.initialized,
                stats.total == self.tasks@.len(),
                stats.context_switches == self.context_switches,
                stats.heartbeat == heartbeat,
                stats.running == count_state(self.tasks@.take(i as int), 0),
                stats.ready == count_state(self.tasks@.take(i as int), 1),
                stats.sleeping == count_state(self.tasks@.take(i as int), 2),
                stats.exited == count_state(self.tasks@.take(i as int), 3),
                count_state(self.tasks@.take(i as int), 0) + count_state(self.tasks@.take(i as int), 1)
                    + count_state(self.tasks@.take(i as int), 2) + count_state(self.tasks@.take(i as int), 3) == i,
            decreases self.tasks@.len() - i,
        {
            let ghost before = self.tasks@.take(i as int);
            proof {
                assert(self.tasks@.take(i + 1).drop_last() =~= before);
                lemma_counts_sum(self.tasks@.take(i + 1));
            }
            match self.tasks[i].state {
                RunState::Running => stats.running = stats.running + 1,
                RunState::Ready => stats.ready = stats.ready + 1,
                RunState::Sleeping(_) => stats.sleeping = stats.sleeping + 1,
                RunState::Exited => stats.exited = stats.exited + 1,
            }
            i += 1;
        }
        proof {
            assert(self.tasks@.take(self.tasks@.len() as int) =~= self.tasks@);
        }
        stats
    }

    /// What each task is doing, in the order they were made.
    pub fn tasks(&self) -> (r: Vec<TaskInfo>)
        ensures
            r@.len() == self.task_list().len(),
            forall|j: int| 0 <= j < r@.len() ==> #[trigger] r@[j] == info_of(self.task_list()[j]),
    {
        let mut out: Vec<TaskInfo> = Vec::new();
        let mut i: usize = 0;
        while i < self.tasks.len()
            invariant
                i <= self.tasks@.len(),
                out@.len() == i,
                forall|j: int| 0 <= j < i ==> #[trigger] out@[j] == info_of(self.tasks@[j]),
            decreases self.tasks@.len() - i,
        {
            let task = self.tasks[i];
            let (state, wake_tick) = match task.state {
                RunState::Running => (TaskState::Running, None),
                RunState::Ready => (TaskState::Ready, None),
                RunState::Sleeping(tick) => (TaskState::Sleeping, Some(tick)),
                RunState::Exited => (TaskState::Exited, None),
            };
            out.push(TaskInfo { id: task.id, name: task.name, state, wake_tick });
            i += 1;
        }
        out
    }
}

/// What a task's record tells of it.
pub open spec fn info_of(t: Task) -> TaskInfo {
    let (state, wake_tick) = match t.state {
        RunState::Running => (TaskState::Running, None),
        RunState::Ready => (TaskState::Ready, None),
        RunState::Sleeping(tick) => (TaskState::Sleeping, Some(tick)),
        RunState::Exited => (TaskState::Exited, None),
    };
    TaskInfo { id: t.id, name: t.name, state, wake_tick }
}

/// The kind of a run state: 0 running, 1 ready, 2 sleeping, 3 exited.
pub open spec fn state_kind(s: RunState) -> int {
    match s {
        RunState::Running => 0,
        RunState::Ready => 1,
        RunState::Sleeping(_) => 2,
        RunState::Exited => 3,
    }
}

/// The number of tasks of `s` in a state of kind `kind`.
pub open spec fn count_state(s: Seq<Task>, kind: int) -> nat
    decreases s.len(),
{
    if s.len() == 0 {
        0
    } else {
        count_state(s.drop_last(), kind) + if state_kind(s.last().state) == kind {
            1nat
        } else {
            0nat
        }
    }
}

proof fn lemma_counts_sum(s: Seq<Task>)
    ensures
        count_state(s, 0) + count_state(s, 1) + count_state(s, 2) + count_state(s, 3) == s.len(),
    decreases s.len(),
{
    if s.len() > 0 {
        lemma_counts_sum(s.drop_last());
    }
}

proof fn lemma_scan_ready(s: Seq<Task>, current: int, offset: int)
    requires
        s.len() > 1,
        0 <= current < s.len(),
        1 <= offset,
    ensures
        scan_ready(s, current, offset) matches Some(n) ==> 0 <= n < s.len() && n != current && s[n].state
            == RunState::Ready,
    decreases s.len() - offset,
{
    if offset < s.len() {
        let n = after(s.len() as int, current, offset);
        vstd::arithmetic::div_mod::lemma_mod_bound(current + offset, s.len() as int);
        if n == current {
            vstd::arithmetic::div_mod::lemma_fundamental_div_mod(current + offset, s.len() as int);
            assert((current + offset) / (s.len() as int) == 1) by (nonlinear_arith)
                requires
                    current + offset == (s.len() as int) * ((current + offset) / (s.len() as int)) + current,
                    offset >= 1,
                    offset < s.len(),
                    s.len() > 0,
            ;
        }
        lemma_scan_ready(s, current, offset + 1);
    }
}

/// The tasks once the CPU passes from task `c`, whose state becomes
/// `leaving`, to task `n`.
pub open spec fn handed_over(s: Seq<Task>, c: int, n: int, leaving: RunState) -> Seq<Task> {
    s.update(c, Task { state: leaving, ..s[c] }).update(n, Task { state: RunState::Running, ..s[n] })
}

/// Every step of the scheduler keeps exactly one task running, the current
/// one, and the task ids distinct: waking sleepers does, and so does handing
/// the CPU to the next ready task.
pub proof fn lemma_one_running(s: Seq<Task>, current: int, next_id: u64, now: u64, leaving: RunState)
    requires
        tasks_ok(s, current, next_id),
        s.len() > 0,
        leaving != RunState::Running,
    ensures
        tasks_ok(woken(s, now), current, next_id),
        next_ready_of(woken(s, now), current) matches Some(n) ==> tasks_ok(
            handed_over(woken(s, now), current, n, leaving),
            n,
            next_id,
        ),
{
    let w = woken(s, now);
    assert forall|j: int| 0 <= j < w.len() implies (#[trigger] w[j]).id == s[j].id && (w[j].state
        == RunState::Running <==> s[j].state == RunState::Running) by {}
    if s.len() > 1 {
        lemma_scan_ready(w, current, 1);
        if next_ready_of(w, current) is Some {
            let n = next_ready_of(w, current)->Some_0;
            let h = handed_over(w, current, n, leaving);
            assert forall|j: int| 0 <= j < h.len() && j != n implies (#[trigger] h[j]).state
                != RunState::Running by {}
            assert forall|j: int| 0 <= j < h.len() implies (#[trigger] h[j]).id < next_id by {}
            assert forall|j: int, k: int| 0 <= j < k < h.len() implies (#[trigger] h[j]).id != (
            #[trigger] h[k]).id by {
                assert(h[j].id == w[j].id && h[k].id == w[k].id);
            }
        }
    }
}


/// The bytes of a kernel task's stack.
pub const STACK_BYTES: usize = 32 * 1024;

/// Where a new task's stack, ending at `end`, holds its first return
/// address, and where its saved stack pointer starts: the context switch
/// pops six callee-saved registers below the return slot, and after its
/// return the stack sits at 8 modulo 16, as at a function's entry.
pub fn initial_frame(end: u64) -> (r: (u64, u64))
    requires
        end >= 64,
    ensures
        r.0 == end - 16,
        r.1 == end - 64,
        r.1 + 48 == r.0,
{
    (end - 16, end - 64)
}
} // verus!

//! The transfer queue: requests, the states of a task, and the scheduler that decides which
//! transfers run.

use std::collections::{HashMap, VecDeque};
use std::sync::atomic::{AtomicBool, Ordering};
use std::sync::Arc;

use vstd::prelude::*;

use crate::ftp::types::{
    ConfigView, ConnectConfig, EventView, FtpEvent, Outcome, OutcomeView,
};

verus! {

broadcast use vstd::std_specs::hash::group_hash_axioms;

/// How many transfers run at once unless told otherwise.
pub const DEFAULT_CONCURRENCY: usize = 2;

/// Which way a transfer goes.
#[derive(Debug, Clone, Copy, PartialEq, Eq, Structural)]
pub enum Direction {
    Upload,
    Download,
}

/// The states of a task.
#[derive(Debug, Clone, Copy, PartialEq, Eq, Structural)]
pub enum TaskState {
    Pending,
    Running,
    Paused,
    Done,
    Failed,
    Canceled,
}

/// One file to transfer. `local` is the text of the local path.
#[derive(Debug)]
pub struct TransferRequest {
    pub task_id: u64,
    pub direction: Direction,
    pub remote: String,
    pub local: String,
    pub size: u64,
}

/// What a [`TransferRequest`] says.
#[verifier::ext_equal]
pub struct RequestView {
    pub task_id: u64,
    pub direction: Direction,
    pub remote: Seq<char>,
    pub local: Seq<char>,
    pub size: u64,
}

impl DeepView for TransferRequest {
    type V = RequestView;

    open spec fn deep_view(&self) -> RequestView {
        RequestView {
            task_id: self.task_id,
            direction: self.direction,
            remote: self.remote@,
            local: self.local@,
            size: self.size,
        }
    }
}

impl Clone for TransferRequest {
    fn clone(&self) -> (r: Self)
        ensures
            r.deep_view() == self.deep_view(),
    {
        TransferRequest {
            task_id: self.task_id,
            direction: self.direction,
            remote: self.remote.clone(),
            local: self.local.clone(),
            size: self.size,
        }
    }
}

/// A flag, and the task that it belongs to. Flags of different tasks are different values, so no
/// two pointers to them can lead to the same one.
#[allow(dead_code)]
struct Flag {
    task: Option<u64>,
    raised: AtomicBool,
}

/// `Arc::clone` gives another pointer to the same value.
#[verifier::external_body]
fn share(flag: &Arc<Flag>) -> (r: Arc<Flag>)
    ensures
        r == *flag,
{
    flag.clone()
}

/// The flag by which a transfer is told to stop. All clones of a handle share one flag. Other
/// threads set it, so of a reading no more is stated than that it is a reading of this flag.
pub struct CancelHandle(Arc<Flag>);

impl CancelHandle {
    /// The task that the flag belongs to, if any.
    pub closed spec fn task(self) -> Option<u64> {
        self.0.task
    }

    /// Whether the flag began as a flag that is not set: `AtomicBool::new` made it of `false`.
    pub closed spec fn began_unset(self) -> bool {
        call_ensures(AtomicBool::new, (false,), self.0.raised)
    }

    /// Whether `value` is what a reading of the flag, by `AtomicBool::load`, can give.
    pub closed spec fn can_read(self, value: bool) -> bool {
        call_ensures(AtomicBool::load, (&self.0.raised, Ordering::Relaxed), value)
    }

    /// Whether the flag was raised: `AtomicBool::store` put `true` into it.
    pub closed spec fn was_raised(self) -> bool {
        call_ensures(AtomicBool::store, (&self.0.raised, true, Ordering::Relaxed), ())
    }

    /// A handle whose flag is not set and belongs to no task.
    pub fn new() -> (r: Self)
        ensures
            r.began_unset(),
            r.task() == None::<u64>,
    {
        CancelHandle(Arc::new(Flag { task: None, raised: AtomicBool::new(false) }))
    }

    /// A handle whose flag is not set and belongs to the task.
    pub fn for_task(task: u64) -> (r: Self)
        ensures
            r.began_unset(),
            r.task() == Some(task),
    {
        CancelHandle(Arc::new(Flag { task: Some(task), raised: AtomicBool::new(false) }))
    }

    /// Sets the flag.
    pub fn cancel(&self)
        ensures
            self.was_raised(),
    {
        self.0.raised.store(true, Ordering::Relaxed);
    }

    /// Whether the flag is set.
    pub fn is_cancelled(&self) -> (r: bool)
        ensures
            self.can_read(r),
    {
        self.0.raised.load(Ordering::Relaxed)
    }
}

impl Clone for CancelHandle {
    fn clone(&self) -> (r: Self)
        ensures
            r == *self,
    {
        CancelHandle(share(&self.0))
    }
}

impl Default for CancelHandle {
    fn default() -> (r: Self)
        ensures
            r.began_unset(),
            r.task() == None::<u64>,
    {
        CancelHandle::new()
    }
}

/// Flags of different tasks are different flags.
pub proof fn tasks_tell_flags_apart(a: CancelHandle, b: CancelHandle)
    requires
        a.task() != b.task(),
    ensures
        a != b,
{
}

/// Whether a task may pass from one state to the other.
pub open spec fn transition_allowed(from: TaskState, to: TaskState) -> bool {
    match from {
        TaskState::Pending => to == TaskState::Running,
        TaskState::Running => to == TaskState::Paused || to == TaskState::Done || to
            == TaskState::Failed || to == TaskState::Canceled,
        TaskState::Paused => to == TaskState::Running || to == TaskState::Canceled,
        TaskState::Failed => to == TaskState::Pending,
        TaskState::Done => false,
        TaskState::Canceled => false,
    }
}

/// Whether a task may pass from one state to the other.
pub fn can_transition(from: TaskState, to: TaskState) -> (r: bool)
    ensures
        r == transition_allowed(from, to),
{
    match (from, to) {
        (TaskState::Pending, TaskState::Running) => true,
        (TaskState::Running, TaskState::Paused) => true,
        (TaskState::Paused, TaskState::Running) => true,
        (TaskState::Running, TaskState::Done) => true,
        (TaskState::Running, TaskState::Failed) => true,
        (TaskState::Running, TaskState::Canceled) => true,
        (TaskState::Paused, TaskState::Canceled) => true,
        (TaskState::Failed, TaskState::Pending) => true,
        _ => false,
    }
}

/// Whether `states` is a history of a task: it begins as pending, and every step is allowed.
pub open spec fn is_history(states: Seq<TaskState>) -> bool {
    &&& states.len() > 0
    &&& states[0] == TaskState::Pending
    &&& forall|i: int|
        0 < i < states.len() ==> transition_allowed(states[i - 1], #[trigger] states[i])
}

/// A task that is done or canceled stays so: nothing follows in its history.
pub proof fn done_and_canceled_are_final(states: Seq<TaskState>, i: int)
    requires
        is_history(states),
        0 <= i < states.len(),
        states[i] == TaskState::Done || states[i] == TaskState::Canceled,
    ensures
        i == states.len() - 1,
{
    if i < states.len() - 1 {
        assert(transition_allowed(states[i], states[i + 1]));
    }
}

/// A task ends well, or fails, only from running; only a failed task is pending again.
pub proof fn tasks_end_from_running(states: Seq<TaskState>, i: int)
    requires
        is_history(states),
        0 < i < states.len(),
    ensures
        states[i] == TaskState::Done || states[i] == TaskState::Failed ==> states[i - 1]
            == TaskState::Running,
        states[i] == TaskState::Canceled ==> states[i - 1] == TaskState::Running || states[i - 1]
            == TaskState::Paused,
        states[i] == TaskState::Pending ==> states[i - 1] == TaskState::Failed,
{
    assert(transition_allowed(states[i - 1], states[i]));
}

/// What may come next: a task that waits is started, one that runs is paused or ends, one that is
/// paused runs again or is canceled, and one that failed waits again.
pub proof fn tasks_go_on_from_where_they_are(states: Seq<TaskState>, next: TaskState)
    requires
        is_history(states),
    ensures
        is_history(states.push(next)) <==> match next {
            TaskState::Pending => states.last() == TaskState::Failed,
            TaskState::Running => states.last() == TaskState::Pending || states.last()
                == TaskState::Paused,
            TaskState::Canceled => states.last() == TaskState::Running || states.last()
                == TaskState::Paused,
            _ => states.last() == TaskState::Running,
        },
{
    let more = states.push(next);
    assert(more[states.len() - 1] == states.last());
    assert(more.last() == next);
    if transition_allowed(states.last(), next) {
        assert forall|i: int| 0 < i < more.len() implies transition_allowed(
            more[i - 1],
            #[trigger] more[i],
        ) by {
            if i < states.len() {
                assert(more[i] == states[i]);
                assert(more[i - 1] == states[i - 1]);
            }
        }
    } else {
        assert(!transition_allowed(more[states.len() - 1], more[states.len() as int]));
    }
}

/// What the scheduler is told.
#[derive(Debug)]
pub enum QueueCommand {
    SetConfig(ConnectConfig),
    Enqueue(Vec<TransferRequest>),
    Cancel(u64),
    TaskDone(u64),
}

/// What a [`QueueCommand`] says.
#[verifier::ext_equal]
pub enum QueueCommandView {
    SetConfig(ConfigView),
    Enqueue(Seq<RequestView>),
    Cancel(u64),
    TaskDone(u64),
}

impl DeepView for QueueCommand {
    type V = QueueCommandView;

    open spec fn deep_view(&self) -> QueueCommandView {
        match self {
            QueueCommand::SetConfig(cfg) => QueueCommandView::SetConfig(cfg.deep_view()),
            QueueCommand::Enqueue(tasks) => QueueCommandView::Enqueue(tasks.deep_view()),
            QueueCommand::Cancel(task_id) => QueueCommandView::Cancel(*task_id),
            QueueCommand::TaskDone(task_id) => QueueCommandView::TaskDone(*task_id),
        }
    }
}

/// What the scheduler wants done: an event shown, a transfer started on a thread and a
/// connection of its own, or the flag of a running transfer set.
pub enum QueueEffect {
    Emit(FtpEvent),
    Start { cfg: ConnectConfig, req: TransferRequest, cancel: CancelHandle },
    Raise(CancelHandle),
}

/// What a [`QueueEffect`] says.
#[verifier::ext_equal]
pub enum QueueEffectView {
    Emit(EventView),
    Start { cfg: ConfigView, req: RequestView, cancel: CancelHandle },
    Raise(CancelHandle),
}

impl DeepView for QueueEffect {
    type V = QueueEffectView;

    open spec fn deep_view(&self) -> QueueEffectView {
        match self {
            QueueEffect::Emit(ev) => QueueEffectView::Emit(ev.deep_view()),
            QueueEffect::Start { cfg, req, cancel } => QueueEffectView::Start {
                cfg: cfg.deep_view(),
                req: req.deep_view(),
                cancel: *cancel,
            },
            QueueEffect::Raise(cancel) => QueueEffectView::Raise(*cancel),
        }
    }
}

/// Decides which transfers run. At most a fixed number run at once; the others wait in the order
/// in which they came.
pub struct Scheduler {
    cfg: Option<ConnectConfig>,
    pending: VecDeque<TransferRequest>,
    running: HashMap<u64, CancelHandle>,
    max_concurrent: usize,
}

/// What a [`Scheduler`] holds: where to connect, the waiting requests, and the running tasks with
/// their flags.
#[verifier::ext_equal]
pub struct SchedulerView {
    pub cfg: Option<ConfigView>,
    pub pending: Seq<RequestView>,
    pub running: Map<u64, CancelHandle>,
    pub max: nat,
}

impl View for Scheduler {
    type V = SchedulerView;

    closed spec fn view(&self) -> SchedulerView {
        SchedulerView {
            cfg: self.cfg.deep_view(),
            pending: self.pending.deep_view(),
            running: self.running@,
            max: self.max_concurrent as nat,
        }
    }
}

impl SchedulerView {
    /// Whether the scheduler keeps its promises: no more tasks run than may run at once, none
    /// waits while another may run, and none waits or runs before there is a server.
    pub open spec fn wf(self) -> bool {
        &&& self.running.dom().finite()
        &&& self.running.len() <= self.max
        &&& self.pending.len() > 0 ==> self.running.len() == self.max
        &&& self.cfg.is_none() ==> self.pending.len() == 0
        &&& flags_belong(self.running)
    }
}

/// Whether each flag belongs to the task that it is kept for.
pub open spec fn flags_belong(running: Map<u64, CancelHandle>) -> bool {
    forall|id: u64| #[trigger] running.contains_key(id) ==> running[id].task() == Some(id)
}

/// The running tasks once the transfers of `effects` are started as well.
pub open spec fn with_started(
    running: Map<u64, CancelHandle>,
    effects: Seq<QueueEffectView>,
) -> Map<u64, CancelHandle>
    decreases effects.len(),
{
    if effects.len() == 0 {
        running
    } else {
        match effects.last() {
            QueueEffectView::Start { cfg, req, cancel } => with_started(
                running,
                effects.drop_last(),
            ).insert(req.task_id, cancel),
            _ => with_started(running, effects.drop_last()),
        }
    }
}

/// Whether `effects` start waiting requests of `before`, the first ones first, up to the number
/// of tasks that may run at once, and `after` is what is left. Every transfer gets a flag that
/// began unset and belongs to its task.
pub open spec fn dispatched(
    before: SchedulerView,
    after: SchedulerView,
    effects: Seq<QueueEffectView>,
) -> bool {
    let n = effects.len() as int;
    &&& n <= before.pending.len()
    &&& forall|k: int|
        0 <= k < n ==> (#[trigger] effects[k] matches QueueEffectView::Start { cfg, req, cancel }
            && before.cfg == Some(cfg) && req == before.pending[k] && cancel.began_unset()
            && cancel.task() == Some(req.task_id))
    &&& after.cfg == before.cfg
    &&& after.max == before.max
    &&& after.pending == before.pending.skip(n)
    &&& after.running == with_started(before.running, effects)
    &&& forall|k: int|
        0 <= k < n ==> with_started(before.running, #[trigger] effects.take(k)).len() < before.max
    &&& after.pending.len() > 0 ==> after.running.len() >= before.max
}

/// The first waiting request with the given id.
pub open spec fn first_pending(pending: Seq<RequestView>, task_id: u64) -> Option<int>
    decreases pending.len(),
{
    if pending.len() == 0 {
        None
    } else if pending[0].task_id == task_id {
        Some(0)
    } else {
        match first_pending(pending.drop_first(), task_id) {
            Some(i) => Some(i + 1),
            None => None,
        }
    }
}

/// The event that tells that transfers need a server first.
pub open spec fn unconnected_event() -> EventView {
    EventView::Error {
        context: "传输队列"@,
        message: "未连接服务器，无法开始传输"@,
    }
}

/// How a command changes the scheduler and what it has done.
pub open spec fn queue_step(
    before: SchedulerView,
    cmd: QueueCommandView,
    after: SchedulerView,
    effects: Seq<QueueEffectView>,
) -> bool {
    match cmd {
        QueueCommandView::SetConfig(cfg) => {
            &&& after == SchedulerView { cfg: Some(cfg), ..before }
            &&& effects == Seq::<QueueEffectView>::empty()
        },
        QueueCommandView::Enqueue(tasks) => if before.cfg.is_none() {
            &&& after == before
            &&& effects == seq![QueueEffectView::Emit(unconnected_event())]
        } else {
            dispatched(
                SchedulerView { pending: before.pending + tasks, ..before },
                after,
                effects,
            )
        },
        QueueCommandView::Cancel(task_id) => if before.running.contains_key(task_id) {
            &&& after == before
            &&& effects == seq![QueueEffectView::Raise(before.running[task_id])]
        } else {
            match first_pending(before.pending, task_id) {
                Some(i) => {
                    &&& after == SchedulerView { pending: before.pending.remove(i), ..before }
                    &&& effects == seq![
                        QueueEffectView::Emit(
                            EventView::TaskFinished { task_id, outcome: OutcomeView::Canceled },
                        ),
                    ]
                },
                None => {
                    &&& after == before
                    &&& effects == Seq::<QueueEffectView>::empty()
                },
            }
        },
        QueueCommandView::TaskDone(task_id) => dispatched(
            SchedulerView { running: before.running.remove(task_id), ..before },
            after,
            effects,
        ),
    }
}

proof fn lemma_first_pending(pending: Seq<RequestView>, task_id: u64)
    ensures
        match first_pending(pending, task_id) {
            Some(i) => 0 <= i < pending.len() && pending[i].task_id == task_id && forall|j: int|
                0 <= j < i ==> (#[trigger] pending[j]).task_id != task_id,
            None => forall|j: int|
                0 <= j < pending.len() ==> (#[trigger] pending[j]).task_id != task_id,
        },
    decreases pending.len(),
{
    if pending.len() > 0 && pending[0].task_id != task_id {
        let rest = pending.drop_first();
        lemma_first_pending(rest, task_id);
        match first_pending(rest, task_id) {
            Some(i) => {
                assert forall|j: int| 0 <= j < i + 1 implies (#[trigger] pending[j]).task_id
                    != task_id by {
                    if j > 0 {
                        assert(pending[j] == rest[j - 1]);
                    }
                }
                assert(rest[i] == pending[i + 1]);
            },
            None => {
                assert forall|j: int| 0 <= j < pending.len() implies (#[trigger] pending[j]).task_id
                    != task_id by {
                    if j > 0 {
                        assert(pending[j] == rest[j - 1]);
                    }
                }
            },
        }
    }
}

impl Scheduler {
    /// A scheduler without a server, with nothing to do.
    pub fn new() -> (r: Self)
        ensures
            r@ == (SchedulerView {
                cfg: None,
                pending: Seq::empty(),
                running: Map::empty(),
                max: DEFAULT_CONCURRENCY as nat,
            }),
            r@.max == 2,
            r@.wf(),
    {
        let r = Scheduler {
            cfg: None,
            pending: VecDeque::new(),
            running: HashMap::new(),
            max_concurrent: DEFAULT_CONCURRENCY,
        };
        assert(r.pending.deep_view() =~= Seq::<RequestView>::empty());
        r
    }

    /// Starts waiting requests as long as more may run.
    fn dispatch(&mut self) -> (effects: Vec<QueueEffect>)
        requires
            old(self)@.running.dom().finite(),
            old(self)@.cfg.is_none() ==> old(self)@.pending.len() == 0,
        ensures
            dispatched(old(self)@, final(self)@, effects.deep_view()),
            final(self)@.running.dom().finite(),
    {
        let ghost before = self@;
        let mut effects: Vec<QueueEffect> = Vec::new();
        assert(effects.deep_view() =~= Seq::<QueueEffectView>::empty());
        assert(before.pending.skip(0) =~= before.pending);
        while self.running.len() < self.max_concurrent
            invariant
                before.cfg.is_none() ==> before.pending.len() == 0,
                self@.cfg == before.cfg,
                self@.max == before.max,
                effects@.len() <= before.pending.len(),
                self@.pending == before.pending.skip(effects@.len() as int),
                self@.running == with_started(before.running, effects.deep_view()),
                forall|k: int|
                    0 <= k < effects@.len() ==> (#[trigger] effects.deep_view()[k]
                        matches QueueEffectView::Start { cfg, req, cancel } && before.cfg == Some(
                        cfg,
                    ) && req == before.pending[k] && cancel.began_unset() && cancel.task() == Some(
                        req.task_id,
                    )),
                forall|k: int|
                    0 <= k < effects@.len() ==> with_started(
                        before.running,
                        #[trigger] effects.deep_view().take(k),
                    ).len() < before.max,
            ensures
                self@.cfg == before.cfg,
                self@.max == before.max,
                effects@.len() <= before.pending.len(),
                self@.pending == before.pending.skip(effects@.len() as int),
                self@.running == with_started(before.running, effects.deep_view()),
                forall|k: int|
                    0 <= k < effects@.len() ==> (#[trigger] effects.deep_view()[k]
                        matches QueueEffectView::Start { cfg, req, cancel } && before.cfg == Some(
                        cfg,
                    ) && req == before.pending[k] && cancel.began_unset() && cancel.task() == Some(
                        req.task_id,
                    )),
                forall|k: int|
                    0 <= k < effects@.len() ==> with_started(
                        before.running,
                        #[trigger] effects.deep_view().take(k),
                    ).len() < before.max,
                self@.pending.len() > 0 ==> self@.running.len() >= before.max,
            decreases self@.pending.len(),
        {
            let ghost waiting = self@.pending;
            let ghost started = effects.deep_view();
            let req = match self.pending.pop_front() {
                Some(req) => req,
                None => {
                    break;
                },
            };
            let cfg = match &self.cfg {
                Some(cfg) => cfg.clone(),
                None => {
                    break;
                },
            };
            let cancel = CancelHandle::for_task(req.task_id);
            self.running.insert(req.task_id, cancel.clone());
            effects.push(QueueEffect::Start { cfg, req, cancel });
            proof {
                let now = effects.deep_view();
                let n = started.len() as int;
                assert(now.drop_last() =~= started);
                assert(now.take(n) =~= started);
                assert(req.deep_view() == waiting[0]);
                assert(self@.pending =~= waiting.drop_first());
                assert(self@.pending =~= before.pending.skip(n + 1));
                assert forall|k: int| 0 <= k < n implies now.take(k) == started.take(k) by {
                    assert(now.take(k) =~= started.take(k));
                }
                assert forall|k: int| 0 <= k < n implies #[trigger] now[k] == started[k] by {}
            }
        }
        effects
    }

    /// Cancels a task: a running one is told by its flag, a waiting one is taken out.
    fn cancel(&mut self, task_id: u64) -> (effects: Vec<QueueEffect>)
        requires
            old(self)@.wf(),
        ensures
            queue_step(
                old(self)@,
                QueueCommandView::Cancel(task_id),
                final(self)@,
                effects.deep_view(),
            ),
    {
        let ghost before = self@;
        let mut effects: Vec<QueueEffect> = Vec::new();
        match self.running.get(&task_id) {
            Some(handle) => {
                effects.push(QueueEffect::Raise(handle.clone()));
                assert(effects.deep_view() =~= seq![
                    QueueEffectView::Raise(before.running[task_id]),
                ]);
                return effects;
            },
            None => {},
        }
        proof {
            lemma_first_pending(before.pending, task_id);
        }
        let n: usize = self.pending.len();
        for i in 0..n
            invariant
                before == old(self)@,
                self@ == before,
                n == self.pending@.len(),
                effects@.len() == 0,
                !before.running.contains_key(task_id),
                forall|j: int|
                    0 <= j < i ==> (#[trigger] before.pending[j]).task_id != task_id,
                match first_pending(before.pending, task_id) {
                    Some(i) => 0 <= i < before.pending.len() && before.pending[i].task_id == task_id
                        && forall|j: int|
                        0 <= j < i ==> (#[trigger] before.pending[j]).task_id != task_id,
                    None => forall|j: int|
                        0 <= j < before.pending.len() ==> (#[trigger] before.pending[j]).task_id
                            != task_id,
                },
        {
            assert(before.pending[i as int] == self.pending@[i as int].deep_view());
            if self.pending[i].task_id == task_id {
                match self.pending.remove(i) {
                    Some(req) => {
                        effects.push(
                            QueueEffect::Emit(
                                FtpEvent::TaskFinished {
                                    task_id: req.task_id,
                                    outcome: Outcome::Canceled,
                                },
                            ),
                        );
                        assert(self@.pending =~= before.pending.remove(i as int));
                        assert(effects.deep_view() =~= seq![
                            QueueEffectView::Emit(
                                EventView::TaskFinished {
                                    task_id,
                                    outcome: OutcomeView::Canceled,
                                },
                            ),
                        ]);
                    },
                    None => {},
                }
                return effects;
            }
        }
        assert(effects.deep_view() =~= Seq::<QueueEffectView>::empty());
        effects
    }

    /// Takes one command and says what is to be done.
    pub fn handle(&mut self, cmd: QueueCommand) -> (effects: Vec<QueueEffect>)
        requires
            old(self)@.wf(),
        ensures
            queue_step(old(self)@, cmd.deep_view(), final(self)@, effects.deep_view()),
            final(self)@.wf(),
    {
        let ghost before = self@;
        match cmd {
            QueueCommand::SetConfig(cfg) => {
                self.cfg = Some(cfg);
                let effects: Vec<QueueEffect> = Vec::new();
                assert(effects.deep_view() =~= Seq::<QueueEffectView>::empty());
                effects
            },
            QueueCommand::Enqueue(tasks) => {
                if self.cfg.is_none() {
                    let mut effects: Vec<QueueEffect> = Vec::new();
                    effects.push(
                        QueueEffect::Emit(
                            FtpEvent::Error {
                                context: "传输队列".to_string(),
                                message: "未连接服务器，无法开始传输".to_string(),
                            },
                        ),
                    );
                    assert(effects.deep_view() =~= seq![QueueEffectView::Emit(unconnected_event())]);
                    return effects;
                }
                let mut rest: VecDeque<TransferRequest> = VecDeque::new();
                let ghost all = tasks.deep_view();
                for req in it: tasks
                    invariant
                        it.seq() == tasks@,
                        all == tasks.deep_view(),
                        rest.deep_view() == all.take(it.index() as int),
                {
                    let ghost done = rest.deep_view();
                    rest.push_back(req);
                    assert(rest.deep_view() =~= done.push(req.deep_view()));
                    assert(rest.deep_view() =~= all.take(it.index() + 1));
                }
                assert(rest.deep_view() =~= all);
                self.pending.append(&mut rest);
                assert(self@.pending =~= before.pending + all);
                let effects = self.dispatch();
                proof {
                    lemma_dispatched_wf(
                        SchedulerView { pending: before.pending + all, ..before },
                        self@,
                        effects.deep_view(),
                    );
                }
                effects
            },
            QueueCommand::Cancel(task_id) => self.cancel(task_id),
            QueueCommand::TaskDone(task_id) => {
                self.running.remove(&task_id);
                assert(self@.running =~= before.running.remove(task_id));
                let effects = self.dispatch();
                proof {
                    lemma_dispatched_wf(
                        SchedulerView { running: before.running.remove(task_id), ..before },
                        self@,
                        effects.deep_view(),
                    );
                }
                effects
            },
        }
    }
}

/// Starting requests keeps the promises that filling the free places restores.
proof fn lemma_dispatched_wf(
    before: SchedulerView,
    after: SchedulerView,
    effects: Seq<QueueEffectView>,
)
    requires
        dispatched(before, after, effects),
        before.running.dom().finite(),
        before.running.len() <= before.max,
        before.cfg.is_none() ==> before.pending.len() == 0,
        flags_belong(before.running),
    ensures
        after.wf(),
{
    lemma_started_finite(before.running, effects);
    assert forall|k: int| 0 <= k < effects.len() implies (#[trigger] effects[k]
        matches QueueEffectView::Start { cfg, req, cancel } ==> cancel.task() == Some(
        req.task_id,
    )) by {}
    lemma_started_flags(before.running, effects);
    let n = effects.len();
    if n > 0 {
        let earlier = effects.take(n - 1);
        assert(effects.drop_last() =~= earlier);
        lemma_started_finite(before.running, earlier);
        assert(with_started(before.running, effects.take(n - 1)).len() < before.max);
    }
}

proof fn lemma_started_finite(running: Map<u64, CancelHandle>, effects: Seq<QueueEffectView>)
    requires
        running.dom().finite(),
    ensures
        with_started(running, effects).dom().finite(),
    decreases effects.len(),
{
    if effects.len() > 0 {
        lemma_started_finite(running, effects.drop_last());
    }
}

proof fn lemma_started_flags(running: Map<u64, CancelHandle>, effects: Seq<QueueEffectView>)
    requires
        flags_belong(running),
        forall|k: int|
            0 <= k < effects.len() ==> (#[trigger] effects[k] matches QueueEffectView::Start {
                cfg,
                req,
                cancel,
            } ==> cancel.task() == Some(req.task_id)),
    ensures
        flags_belong(with_started(running, effects)),
    decreases effects.len(),
{
    if effects.len() > 0 {
        let rest = effects.drop_last();
        assert forall|k: int| 0 <= k < rest.len() implies (#[trigger] rest[k]
            matches QueueEffectView::Start { cfg, req, cancel } ==> cancel.task() == Some(
            req.task_id,
        )) by {
            assert(rest[k] == effects[k]);
        }
        lemma_started_flags(running, rest);
        assert(effects.last() == effects[effects.len() - 1]);
    }
}

/// Every command keeps the scheduler's promises: never more tasks run than may run at once, none
/// waits while another may run, and every running task has the flag that belongs to it.
pub proof fn steps_keep_the_promises(
    before: SchedulerView,
    cmd: QueueCommandView,
    after: SchedulerView,
    effects: Seq<QueueEffectView>,
)
    requires
        before.wf(),
        queue_step(before, cmd, after, effects),
    ensures
        after.wf(),
        after.max == before.max,
{
    match cmd {
        QueueCommandView::SetConfig(cfg) => {},
        QueueCommandView::Enqueue(tasks) => {
            if before.cfg.is_some() {
                lemma_dispatched_wf(
                    SchedulerView { pending: before.pending + tasks, ..before },
                    after,
                    effects,
                );
            }
        },
        QueueCommandView::Cancel(task_id) => {
            lemma_first_pending(before.pending, task_id);
        },
        QueueCommandView::TaskDone(task_id) => {
            lemma_dispatched_wf(
                SchedulerView { running: before.running.remove(task_id), ..before },
                after,
                effects,
            );
        },
    }
}

/// The requests that `effects` start, in order.
pub open spec fn started(effects: Seq<QueueEffectView>) -> Seq<RequestView>
    decreases effects.len(),
{
    if effects.len() == 0 {
        Seq::empty()
    } else {
        match effects.last() {
            QueueEffectView::Start { cfg, req, cancel } => started(effects.drop_last()).push(req),
            _ => started(effects.drop_last()),
        }
    }
}

/// The requests that a command adds to the queue.
pub open spec fn accepted(before: SchedulerView, cmd: QueueCommandView) -> Seq<RequestView> {
    match cmd {
        QueueCommandView::Enqueue(tasks) => if before.cfg.is_some() {
            tasks
        } else {
            Seq::empty()
        },
        _ => Seq::empty(),
    }
}

proof fn lemma_started(waiting: Seq<RequestView>, effects: Seq<QueueEffectView>)
    requires
        effects.len() <= waiting.len(),
        forall|k: int|
            0 <= k < effects.len() ==> (#[trigger] effects[k] matches QueueEffectView::Start {
                cfg,
                req,
                cancel,
            } && req == waiting[k]),
    ensures
        started(effects) == waiting.take(effects.len() as int),
    decreases effects.len(),
{
    if effects.len() > 0 {
        let rest = effects.drop_last();
        assert forall|k: int| 0 <= k < rest.len() implies (#[trigger] rest[k]
            matches QueueEffectView::Start { cfg, req, cancel } && req == waiting[k]) by {
            assert(rest[k] == effects[k]);
        }
        lemma_started(waiting, rest);
        assert(effects.last() == effects[effects.len() - 1]);
    }
    assert(started(effects) =~= waiting.take(effects.len() as int));
}

/// No command but a cancellation loses or reorders a request: what is started now and what waits
/// afterwards are, in this order, what waited before and what the command adds.
pub proof fn requests_are_kept(
    before: SchedulerView,
    cmd: QueueCommandView,
    after: SchedulerView,
    effects: Seq<QueueEffectView>,
)
    requires
        queue_step(before, cmd, after, effects),
        !(cmd is Cancel),
    ensures
        started(effects) + after.pending == before.pending + accepted(before, cmd),
{
    let waiting = before.pending + accepted(before, cmd);
    assert(before.pending + Seq::<RequestView>::empty() =~= before.pending);
    let dispatches = match cmd {
        QueueCommandView::Enqueue(tasks) => before.cfg.is_some(),
        QueueCommandView::TaskDone(task_id) => true,
        _ => false,
    };
    if dispatches {
        lemma_started(waiting, effects);
        assert(waiting.take(effects.len() as int) + waiting.skip(effects.len() as int) =~= waiting);
    } else {
        reveal_with_fuel(started, 2);
        assert(started(effects) =~= Seq::<RequestView>::empty());
        assert(Seq::<RequestView>::empty() + after.pending =~= after.pending);
    }
}

/// Whether the ids of the requests differ from one another and from those of the running tasks.
pub open spec fn has_own_ids(s: SchedulerView) -> bool {
    &&& forall|j: int, k: int|
        0 <= j < k < s.pending.len() ==> (#[trigger] s.pending[j]).task_id != (
        #[trigger] s.pending[k]).task_id
    &&& forall|k: int|
        0 <= k < s.pending.len() ==> !s.running.contains_key((#[trigger] s.pending[k]).task_id)
}

proof fn lemma_with_started(s: SchedulerView, effects: Seq<QueueEffectView>)
    requires
        s.running.dom().finite(),
        has_own_ids(s),
        effects.len() <= s.pending.len(),
        forall|k: int|
            0 <= k < effects.len() ==> (#[trigger] effects[k] matches QueueEffectView::Start {
                cfg,
                req,
                cancel,
            } && req == s.pending[k]),
    ensures
        with_started(s.running, effects).dom().finite(),
        with_started(s.running, effects).len() == s.running.len() + effects.len(),
        forall|id: u64| #[trigger]
            with_started(s.running, effects).contains_key(id) <==> s.running.contains_key(id)
                || exists|k: int|
                0 <= k < effects.len() && (#[trigger] s.pending[k]).task_id == id,
    decreases effects.len(),
{
    if effects.len() > 0 {
        let rest = effects.drop_last();
        let n = rest.len() as int;
        assert forall|k: int| 0 <= k < n implies (#[trigger] rest[k]
            matches QueueEffectView::Start { cfg, req, cancel } && req == s.pending[k]) by {
            assert(rest[k] == effects[k]);
        }
        lemma_with_started(s, rest);
        assert(effects.last() == effects[n]);
        let id = s.pending[n].task_id;
        assert(!with_started(s.running, rest).contains_key(id));
    }
}

/// As many waiting requests are started as there are free places and requests, and the tasks that
/// then run are those that ran before and these. (Task ids are given out once.)
pub proof fn free_places_are_filled(
    before: SchedulerView,
    after: SchedulerView,
    effects: Seq<QueueEffectView>,
)
    requires
        before.running.dom().finite(),
        before.running.len() <= before.max,
        has_own_ids(before),
        dispatched(before, after, effects),
    ensures
        effects.len() == if before.pending.len() <= before.max - before.running.len() {
            before.pending.len() as int
        } else {
            before.max - before.running.len()
        },
        forall|id: u64| #[trigger]
            after.running.contains_key(id) <==> before.running.contains_key(id) || exists|k: int|
                0 <= k < effects.len() && (#[trigger] before.pending[k]).task_id == id,
{
    let n = effects.len() as int;
    lemma_with_started(before, effects);
    if n > 0 {
        let rest = effects.take(n - 1);
        assert forall|k: int| 0 <= k < rest.len() implies (#[trigger] rest[k]
            matches QueueEffectView::Start { cfg, req, cancel } && req == before.pending[k]) by {
            assert(rest[k] == effects[k]);
        }
        lemma_with_started(before, rest);
    }
}

/// One command of a run, with the scheduler before and after it and what it had done.
pub struct QueueStep {
    pub before: SchedulerView,
    pub cmd: QueueCommandView,
    pub after: SchedulerView,
    pub effects: Seq<QueueEffectView>,
}

/// The scheduler once the steps are done.
pub open spec fn after_run(from: SchedulerView, steps: Seq<QueueStep>) -> SchedulerView {
    if steps.len() == 0 {
        from
    } else {
        steps.last().after
    }
}

/// Whether the steps follow one another, from the state `from`.
pub open spec fn is_queue_run(from: SchedulerView, steps: Seq<QueueStep>) -> bool
    decreases steps.len(),
{
    steps.len() > 0 ==> {
        let last = steps.last();
        &&& is_queue_run(from, steps.drop_last())
        &&& last.before == after_run(from, steps.drop_last())
        &&& queue_step(last.before, last.cmd, last.after, last.effects)
    }
}

/// The requests that the steps start, in order.
pub open spec fn all_started(steps: Seq<QueueStep>) -> Seq<RequestView>
    decreases steps.len(),
{
    if steps.len() == 0 {
        Seq::empty()
    } else {
        all_started(steps.drop_last()) + started(steps.last().effects)
    }
}

/// The requests that the steps add, in order.
pub open spec fn all_accepted(steps: Seq<QueueStep>) -> Seq<RequestView>
    decreases steps.len(),
{
    if steps.len() == 0 {
        Seq::empty()
    } else {
        all_accepted(steps.drop_last()) + accepted(steps.last().before, steps.last().cmd)
    }
}

proof fn lemma_regroup(
    a: Seq<RequestView>,
    b: Seq<RequestView>,
    c: Seq<RequestView>,
    d: Seq<RequestView>,
    e: Seq<RequestView>,
)
    requires
        b + c == d + e,
    ensures
        (a + b) + c == (a + d) + e,
{
    assert((a + b) + c =~= a + (b + c));
    assert((a + d) + e =~= a + (d + e));
}

/// First come, first served: in a run without cancellations that begins with an empty queue, the
/// requests that were started, followed by those that still wait, are the requests that were
/// added, in the order in which they came. At no time do more tasks run than may.
pub proof fn requests_start_in_order(from: SchedulerView, steps: Seq<QueueStep>)
    requires
        from.wf(),
        from.pending.len() == 0,
        is_queue_run(from, steps),
        forall|i: int| 0 <= i < steps.len() ==> !((#[trigger] steps[i]).cmd is Cancel),
    ensures
        all_started(steps) + after_run(from, steps).pending == all_accepted(steps),
        after_run(from, steps).running.len() <= from.max,
        after_run(from, steps).wf(),
        after_run(from, steps).max == from.max,
    decreases steps.len(),
{
    if steps.len() == 0 {
        assert(all_started(steps) + from.pending =~= all_accepted(steps));
    } else {
        let earlier = steps.drop_last();
        let last = steps.last();
        assert forall|i: int| 0 <= i < earlier.len() implies !((
        #[trigger] earlier[i]).cmd is Cancel) by {
            assert(earlier[i] == steps[i]);
        }
        requests_start_in_order(from, earlier);
        assert(last == steps[steps.len() - 1]);
        steps_keep_the_promises(last.before, last.cmd, last.after, last.effects);
        requests_are_kept(last.before, last.cmd, last.after, last.effects);
        lemma_regroup(
            all_started(earlier),
            started(last.effects),
            last.after.pending,
            last.before.pending,
            accepted(last.before, last.cmd),
        );
    }
}

/// Once a waiting task is canceled, its request is in the queue no more, the others keep their
/// order, and the cancellation is told. (Task ids are given out once.)
pub proof fn canceled_requests_do_not_wait(
    before: SchedulerView,
    task_id: u64,
    i: int,
    after: SchedulerView,
    effects: Seq<QueueEffectView>,
)
    requires
        0 <= i < before.pending.len(),
        before.pending[i].task_id == task_id,
        !before.running.contains_key(task_id),
        forall|j: int, k: int|
            0 <= j < k < before.pending.len() ==> (#[trigger] before.pending[j]).task_id != (
            #[trigger] before.pending[k]).task_id,
        queue_step(before, QueueCommandView::Cancel(task_id), after, effects),
    ensures
        after.pending == before.pending.remove(i),
        forall|j: int| 0 <= j < after.pending.len() ==> (#[trigger] after.pending[j]).task_id
            != task_id,
        after.running == before.running,
        effects == seq![
            QueueEffectView::Emit(
                EventView::TaskFinished { task_id, outcome: OutcomeView::Canceled },
            ),
        ],
{
    lemma_first_pending(before.pending, task_id);
    let first = first_pending(before.pending, task_id);
    assert(first.is_some());
    let f = first->0;
    if f < i {
        assert(before.pending[f].task_id != before.pending[i].task_id);
    } else if i < f {
        assert(before.pending[i].task_id != task_id);
    }
    assert forall|j: int| 0 <= j < after.pending.len() implies (#[trigger] after.pending[j]).task_id
        != task_id by {
        if j < i {
            assert(after.pending[j] == before.pending[j]);
            assert(before.pending[j].task_id != before.pending[i].task_id);
        } else {
            assert(after.pending[j] == before.pending[j + 1]);
            assert(before.pending[i].task_id != before.pending[j + 1].task_id);
        }
    }
}

/// No two running tasks have the same flag.
pub proof fn running_tasks_have_flags_of_their_own(s: SchedulerView, a: u64, b: u64)
    requires
        s.wf(),
        s.running.contains_key(a),
        s.running.contains_key(b),
        a != b,
    ensures
        s.running[a] != s.running[b],
{
}

/// Transfers that are started get flags that no other task has, neither one that is started with
/// them nor one that ran before, unless it has the same id.
pub proof fn started_transfers_have_flags_of_their_own(
    before: SchedulerView,
    after: SchedulerView,
    effects: Seq<QueueEffectView>,
    i: int,
)
    requires
        flags_belong(before.running),
        dispatched(before, after, effects),
        0 <= i < effects.len(),
    ensures
        effects[i] matches QueueEffectView::Start { cfg, req, cancel } && {
            &&& forall|j: int|
                0 <= j < effects.len() ==> (#[trigger] effects[j] matches QueueEffectView::Start {
                    cfg: _,
                    req: other,
                    cancel: flag,
                } && (other.task_id != req.task_id ==> flag != cancel))
            &&& forall|id: u64| #[trigger]
                before.running.contains_key(id) && id != req.task_id ==> before.running[id]
                    != cancel
        },
{
}

/// A running task that is canceled goes on until it looks at its flag: the cancellation changes
/// no queue and sets the flag of that task alone, which no other running task has.
pub proof fn cancel_of_running_raises_its_flag(
    before: SchedulerView,
    task_id: u64,
    after: SchedulerView,
    effects: Seq<QueueEffectView>,
)
    requires
        before.wf(),
        before.running.contains_key(task_id),
        queue_step(before, QueueCommandView::Cancel(task_id), after, effects),
    ensures
        after == before,
        effects == seq![QueueEffectView::Raise(before.running[task_id])],
        before.running[task_id].task() == Some(task_id),
        forall|id: u64| #[trigger]
            before.running.contains_key(id) && id != task_id ==> before.running[id]
                != before.running[task_id],
{
}

/// The server that was set last.
pub open spec fn last_server(first: Option<ConfigView>, steps: Seq<QueueStep>) -> Option<ConfigView>
    decreases steps.len(),
{
    if steps.len() == 0 {
        first
    } else {
        match steps.last().cmd {
            QueueCommandView::SetConfig(cfg) => Some(cfg),
            _ => last_server(first, steps.drop_last()),
        }
    }
}

/// Transfers connect to the server that was set last before they start.
pub proof fn transfers_use_the_last_server(from: SchedulerView, steps: Seq<QueueStep>, k: int)
    requires
        is_queue_run(from, steps),
        steps.len() > 0,
        0 <= k < steps.last().effects.len(),
        steps.last().effects[k] is Start,
    ensures
        last_server(from.cfg, steps) == Some(steps.last().effects[k]->cfg),
{
    lemma_server_is_kept(from, steps.drop_last());
    let last = steps.last();
    assert(last.effects[k] is Start);
}

proof fn lemma_server_is_kept(from: SchedulerView, steps: Seq<QueueStep>)
    requires
        is_queue_run(from, steps),
    ensures
        after_run(from, steps).cfg == last_server(from.cfg, steps),
    decreases steps.len(),
{
    if steps.len() > 0 {
        lemma_server_is_kept(from, steps.drop_last());
    }
}

/// Without a server nothing is started or kept, and that is told.
pub proof fn nothing_starts_without_a_server(
    before: SchedulerView,
    tasks: Seq<RequestView>,
    after: SchedulerView,
    effects: Seq<QueueEffectView>,
)
    requires
        before.cfg.is_none(),
        queue_step(before, QueueCommandView::Enqueue(tasks), after, effects),
    ensures
        after == before,
        effects.len() == 1,
        effects[0] == QueueEffectView::Emit(
            EventView::Error {
                context: "传输队列"@,
                message: "未连接服务器，无法开始传输"@,
            },
        ),
{
}

/// A task that ended gives its place free to the first request that waits, and the others keep
/// theirs, with their flags.
pub proof fn ended_tasks_leave_the_others_alone(
    before: SchedulerView,
    task_id: u64,
    after: SchedulerView,
    effects: Seq<QueueEffectView>,
    id: u64,
)
    requires
        before.wf(),
        has_own_ids(before),
        queue_step(before, QueueCommandView::TaskDone(task_id), after, effects),
        before.running.contains_key(id),
    ensures
        id != task_id ==> after.running.contains_key(id) && after.running[id] == before.running[id],
        id == task_id ==> !after.running.contains_key(id) || exists|k: int|
            0 <= k < before.pending.len() && (#[trigger] before.pending[k]).task_id == id,
        before.pending.len() > 0 && id == task_id ==> started(effects) == before.pending.take(1),
{
    let middle = SchedulerView { running: before.running.remove(task_id), ..before };
    assert(has_own_ids(middle)) by {
        assert forall|k: int| 0 <= k < middle.pending.len() implies !middle.running.contains_key(
            (#[trigger] middle.pending[k]).task_id,
        ) by {
            assert(!before.running.contains_key(before.pending[k].task_id));
        }
    }
    free_places_are_filled(middle, after, effects);
    lemma_started(middle.pending, effects);
    assert(middle.pending.take(middle.pending.len() as int) =~= middle.pending);
    if id != task_id {
        assert(middle.running.contains_key(id));
        lemma_started_keep(middle, effects, id);
    }
}

proof fn lemma_started_keep(s: SchedulerView, effects: Seq<QueueEffectView>, id: u64)
    requires
        has_own_ids(s),
        s.running.contains_key(id),
        effects.len() <= s.pending.len(),
        forall|k: int|
            0 <= k < effects.len() ==> (#[trigger] effects[k] matches QueueEffectView::Start {
                cfg,
                req,
                cancel,
            } && req == s.pending[k]),
    ensures
        with_started(s.running, effects).contains_key(id),
        with_started(s.running, effects)[id] == s.running[id],
    decreases effects.len(),
{
    if effects.len() > 0 {
        let rest = effects.drop_last();
        assert forall|k: int| 0 <= k < rest.len() implies (#[trigger] rest[k]
            matches QueueEffectView::Start { cfg, req, cancel } && req == s.pending[k]) by {
            assert(rest[k] == effects[k]);
        }
        lemma_started_keep(s, rest, id);
        let n = rest.len() as int;
        assert(effects.last() == effects[n]);
        assert(!s.running.contains_key(s.pending[n].task_id));
    }
}

/// To cancel a task that neither runs nor waits changes nothing.
pub proof fn unknown_tasks_are_not_canceled(
    before: SchedulerView,
    task_id: u64,
    after: SchedulerView,
    effects: Seq<QueueEffectView>,
)
    requires
        !before.running.contains_key(task_id),
        forall|i: int|
            0 <= i < before.pending.len() ==> (#[trigger] before.pending[i]).task_id != task_id,
        queue_step(before, QueueCommandView::Cancel(task_id), after, effects),
    ensures
        after == before,
        effects.len() == 0,
{
    lemma_first_pending(before.pending, task_id);
}

/// From a new scheduler on no more than two transfers ever run at once, and whoever waits does so
/// because two of them run.
pub proof fn two_transfers_run_at_once(first: Scheduler, steps: Seq<QueueStep>)
    requires
        call_ensures(Scheduler::new, (), first),
        is_queue_run(first@, steps),
    ensures
        after_run(first@, steps).running.len() <= 2,
        after_run(first@, steps).pending.len() > 0 ==> after_run(first@, steps).running.len() == 2,
{
    lemma_promises_are_kept(first@, steps);
}

proof fn lemma_promises_are_kept(from: SchedulerView, steps: Seq<QueueStep>)
    requires
        from.wf(),
        is_queue_run(from, steps),
    ensures
        after_run(from, steps).wf(),
        after_run(from, steps).max == from.max,
    decreases steps.len(),
{
    if steps.len() > 0 {
        let last = steps.last();
        lemma_promises_are_kept(from, steps.drop_last());
        steps_keep_the_promises(last.before, last.cmd, last.after, last.effects);
    }
}

} // verus!

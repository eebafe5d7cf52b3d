//! One transfer on a connection of its own. [`Transfer`] decides what is done next; whoever runs
//! it does that and tells what came of it.

use vstd::prelude::*;

use crate::ftp::types::{
    split_remote, EntryView, EventView, FileEntry, FtpEvent, LogDir, Outcome, OutcomeView,
};
use crate::local::{dir, PathKind};
use crate::queue::{Direction, QueueCommand, QueueCommandView, RequestView, TransferRequest};
use crate::text::appended;

verus! {

/// The least time between two reports of progress, in nanoseconds.
pub const PROGRESS_INTERVAL: u128 = 100_000_000;

/// How much of a file is read at a time.
pub const READ_BUFFER_SIZE: usize = 65_536;

/// The nanoseconds from `then` to `now`; none if the clock went back.
pub open spec fn since(then: u128, now: u128) -> int {
    if now >= then {
        now - then
    } else {
        0
    }
}

/// The whole milliseconds by which a speed is reckoned: at least one, and one where there are
/// more than a `u64` holds.
pub open spec fn counted_ms(elapsed_ms: int) -> int {
    if elapsed_ms < 1 || elapsed_ms > u64::MAX {
        1
    } else {
        elapsed_ms
    }
}

/// Bytes per second, rounded down.
pub open spec fn speed(bytes: int, elapsed_ms: int) -> int {
    bytes * 1000 / counted_ms(elapsed_ms)
}

/// The speed, in bytes per second, at which `bytes` were moved in so many milliseconds.
pub fn speed_of(bytes: u64, elapsed_ms: u128) -> (r: u64)
    requires
        bytes * 1000 <= u64::MAX,
    ensures
        r == speed(bytes as int, elapsed_ms as int),
        1 <= elapsed_ms <= u64::MAX ==> r == bytes * 1000 / elapsed_ms as int,
{
    let ms: u64 = if elapsed_ms < 1 || elapsed_ms > u64::MAX as u128 {
        1
    } else {
        elapsed_ms as u64
    };
    bytes * 1000 / ms
}

/// What a transfer waits for.
#[derive(Debug, Clone, Copy, PartialEq, Eq, Structural)]
pub enum Phase {
    Start,
    Connecting,
    Entering,
    Sizing,
    Creating,
    Opening,
    Reading,
    Writing,
    Aborting,
    Closing,
    OpeningLocal,
    Storing,
    Locating,
    Refreshing,
    Cleaning,
    Finished,
}

/// What is to be done next.
#[derive(Debug)]
pub enum Action {
    /// Open a connection and log in.
    Connect,
    /// Enter the remote directory.
    Enter(String),
    /// Ask for the size of the remote file.
    AskSize(String),
    /// Create the local file.
    Create(String),
    /// Begin to receive the remote file.
    Retrieve(String),
    /// Read the next piece of the file.
    Read,
    /// Write the piece that was read, of so many bytes.
    Write(u64),
    /// Hand the piece that was read to the connection.
    Supply(u64),
    /// Break the data connection off.
    Abort,
    /// Close the data connection.
    Close,
    /// Open the local file.
    Open(String),
    /// Begin to send the remote file.
    Store(String),
    /// Ask for the current remote directory.
    AskDir,
    /// List the local directory.
    ListLocal(String),
    /// List the remote directory.
    ListRemote(String),
    /// Remove what the transfer left in the local file system.
    RemoveLocal(String),
    /// Remove what the transfer left on the server.
    RemoveRemote(String),
    /// Nothing more: the transfer ended so.
    Finish(Outcome),
}

/// What an [`Action`] says.
#[verifier::ext_equal]
pub enum ActionView {
    Connect,
    Enter(Seq<char>),
    AskSize(Seq<char>),
    Create(Seq<char>),
    Retrieve(Seq<char>),
    Read,
    Write(u64),
    Supply(u64),
    Abort,
    Close,
    Open(Seq<char>),
    Store(Seq<char>),
    AskDir,
    ListLocal(Seq<char>),
    ListRemote(Seq<char>),
    RemoveLocal(Seq<char>),
    RemoveRemote(Seq<char>),
    Finish(OutcomeView),
}

impl DeepView for Action {
    type V = ActionView;

    open spec fn deep_view(&self) -> ActionView {
        match self {
            Action::Connect => ActionView::Connect,
            Action::Enter(path) => ActionView::Enter(path@),
            Action::AskSize(name) => ActionView::AskSize(name@),
            Action::Create(path) => ActionView::Create(path@),
            Action::Retrieve(name) => ActionView::Retrieve(name@),
            Action::Read => ActionView::Read,
            Action::Write(n) => ActionView::Write(*n),
            Action::Supply(n) => ActionView::Supply(*n),
            Action::Abort => ActionView::Abort,
            Action::Close => ActionView::Close,
            Action::Open(path) => ActionView::Open(path@),
            Action::Store(name) => ActionView::Store(name@),
            Action::AskDir => ActionView::AskDir,
            Action::ListLocal(path) => ActionView::ListLocal(path@),
            Action::ListRemote(path) => ActionView::ListRemote(path@),
            Action::RemoveLocal(path) => ActionView::RemoveLocal(path@),
            Action::RemoveRemote(name) => ActionView::RemoveRemote(name@),
            Action::Finish(outcome) => ActionView::Finish(outcome.deep_view()),
        }
    }
}

/// What came of an action. Times are nanoseconds on a clock that begins with the transfer.
pub enum Report {
    /// The transfer is to begin.
    Begin,
    /// It succeeded.
    Done,
    /// The remote file has so many bytes.
    Size(u64),
    /// The local file was created.
    Created { now: u128 },
    /// The local file was opened; its length, where it can be told.
    Opened { len: Option<u64>, now: u128 },
    /// The connection asks for the next piece.
    Wanted,
    /// So many bytes were read; none at the end of the file.
    Bytes { n: u64, now: u128 },
    /// The piece was written.
    Written { now: u128 },
    /// The current remote directory.
    Dir(String),
    /// The directory's entries.
    Entries(Vec<FileEntry>),
    /// It failed, with this message.
    Failed(String),
}

/// What a [`Report`] says.
#[verifier::ext_equal]
pub enum ReportView {
    Begin,
    Done,
    Size(u64),
    Created { now: u128 },
    Opened { len: Option<u64>, now: u128 },
    Wanted,
    Bytes { n: u64, now: u128 },
    Written { now: u128 },
    Dir(Seq<char>),
    Entries(Seq<EntryView>),
    Failed(Seq<char>),
}

impl DeepView for Report {
    type V = ReportView;

    open spec fn deep_view(&self) -> ReportView {
        match self {
            Report::Begin => ReportView::Begin,
            Report::Done => ReportView::Done,
            Report::Size(n) => ReportView::Size(*n),
            Report::Created { now } => ReportView::Created { now: *now },
            Report::Opened { len, now } => ReportView::Opened { len: *len, now: *now },
            Report::Wanted => ReportView::Wanted,
            Report::Bytes { n, now } => ReportView::Bytes { n: *n, now: *now },
            Report::Written { now } => ReportView::Written { now: *now },
            Report::Dir(path) => ReportView::Dir(path@),
            Report::Entries(entries) => ReportView::Entries(entries.deep_view()),
            Report::Failed(text) => ReportView::Failed(text@),
        }
    }
}

/// The event to show, if any, and what is to be done next.
#[derive(Debug)]
pub struct Reply {
    pub emit: Option<FtpEvent>,
    pub action: Action,
}

/// What a [`Reply`] says.
#[verifier::ext_equal]
pub struct ReplyView {
    pub emit: Option<EventView>,
    pub action: ActionView,
}

impl DeepView for Reply {
    type V = ReplyView;

    open spec fn deep_view(&self) -> ReplyView {
        ReplyView { emit: self.emit.deep_view(), action: self.action.deep_view() }
    }
}

/// A transfer under way.
pub struct Transfer {
    kind: PathKind,
    req: TransferRequest,
    phase: Phase,
    total: u64,
    done: u64,
    last_done: u64,
    last_report: u128,
    chunk: u64,
    path: String,
    outcome: Option<Outcome>,
}

/// What a [`Transfer`] knows: the kind of local paths, the request, what it waits for, the size of
/// the file and how much of it was moved (0 where the size is unknown), how much had been moved at
/// the last report and when that was, the piece under way, the directory to be listed, and how it
/// ended.
#[verifier::ext_equal]
pub struct TransferView {
    pub kind: PathKind,
    pub req: RequestView,
    pub phase: Phase,
    pub total: u64,
    pub done: u64,
    pub last_done: u64,
    pub last_report: u128,
    pub chunk: u64,
    pub path: Seq<char>,
    pub outcome: Option<OutcomeView>,
}

impl View for Transfer {
    type V = TransferView;

    closed spec fn view(&self) -> TransferView {
        TransferView {
            kind: self.kind,
            req: self.req.deep_view(),
            phase: self.phase,
            total: self.total,
            done: self.done,
            last_done: self.last_done,
            last_report: self.last_report,
            chunk: self.chunk,
            path: self.path@,
            outcome: self.outcome.deep_view(),
        }
    }
}

/// A transfer that has not begun.
pub open spec fn fresh(kind: PathKind, req: RequestView) -> TransferView {
    TransferView {
        kind,
        req,
        phase: Phase::Start,
        total: 0,
        done: 0,
        last_done: 0,
        last_report: 0,
        chunk: 0,
        path: Seq::empty(),
        outcome: None,
    }
}

impl TransferView {
    /// Whether the parts fit together.
    pub open spec fn wf(self) -> bool {
        &&& self.last_done <= self.done
        &&& self.outcome.is_some() <==> self.phase == Phase::Cleaning || self.phase
            == Phase::Finished
    }

    /// Whether the transfer waits for such a report.
    pub open spec fn expects(self, report: ReportView) -> bool {
        match self.phase {
            Phase::Start => report is Begin,
            Phase::Connecting => report is Done || report is Failed,
            Phase::Entering => report is Done || report is Failed,
            Phase::Sizing => report is Size || report is Failed,
            Phase::Creating => report is Created || report is Failed,
            Phase::Opening => report is Done || report is Failed,
            Phase::Reading => report is Bytes || report is Failed,
            Phase::Writing => report is Written || report is Failed,
            Phase::Aborting => report is Failed,
            Phase::Closing => report is Done || report is Failed,
            Phase::OpeningLocal => report is Opened || report is Failed,
            Phase::Storing => report is Wanted || report is Done || report is Failed,
            Phase::Locating => report is Dir || report is Failed,
            Phase::Refreshing => report is Entries || report is Failed,
            Phase::Cleaning => report is Done || report is Failed,
            Phase::Finished => false,
        }
    }

    /// Whether `n` more bytes at the time `now` can be counted, and their speed told.
    pub open spec fn can_count(self, n: u64, now: u128) -> bool {
        &&& self.done + n <= u64::MAX
        &&& since(self.last_report, now) >= PROGRESS_INTERVAL ==> (self.done + n - self.last_done)
            * 1000 <= u64::MAX
    }

    /// Whether the bytes that a report tells of can be counted.
    pub open spec fn has_room(self, report: ReportView) -> bool {
        match report {
            ReportView::Bytes { n, now } => self.req.direction == Direction::Upload
                ==> self.can_count(n, now),
            ReportView::Written { now } => self.can_count(self.chunk, now),
            _ => true,
        }
    }

    /// The remote directory and the name in it.
    pub open spec fn remote_dir(self) -> Seq<char> {
        crate::ftp::types::split_at_slash(self.req.remote).0
    }

    /// The name of the remote file in its directory.
    pub open spec fn remote_name(self) -> Seq<char> {
        crate::ftp::types::split_at_slash(self.req.remote).1
    }

    /// The removal of what an unfinished transfer leaves.
    pub open spec fn cleanup(self) -> ActionView {
        match self.req.direction {
            Direction::Download => ActionView::RemoveLocal(self.req.local),
            Direction::Upload => ActionView::RemoveRemote(self.remote_name()),
        }
    }
}

/// A transfer, the event it shows, and what it does next.
pub type Next = (TransferView, ReplyView);

/// The transfer goes on, with nothing to show.
pub open spec fn quietly(t: TransferView, action: ActionView) -> Next {
    (t, ReplyView { emit: None, action })
}

/// The transfer is over.
pub open spec fn ended(t: TransferView, outcome: OutcomeView, emit: Option<EventView>) -> Next {
    (
        TransferView { phase: Phase::Finished, outcome: Some(outcome), ..t },
        ReplyView { emit, action: ActionView::Finish(outcome) },
    )
}

/// The transfer broke off with a message: it was canceled if the flag says so, and failed
/// otherwise. What it left is removed.
pub open spec fn broken_off(t: TransferView, text: Seq<char>, cancelled: bool) -> Next {
    let outcome = if cancelled {
        OutcomeView::Canceled
    } else {
        OutcomeView::Failed(text)
    };
    quietly(
        TransferView { phase: Phase::Cleaning, outcome: Some(outcome), ..t },
        t.cleanup(),
    )
}

/// The local file is created, to hold `total` bytes.
pub open spec fn creating(t: TransferView, total: u64) -> Next {
    quietly(
        TransferView { phase: Phase::Creating, total, ..t },
        ActionView::Create(t.req.local),
    )
}

/// The remote directory is entered: the file's size is asked for where the request does not tell
/// it, or the local file is opened.
pub open spec fn entered(t: TransferView) -> Next {
    match t.req.direction {
        Direction::Download => if t.req.size > 0 {
            creating(t, t.req.size)
        } else {
            quietly(
                TransferView { phase: Phase::Sizing, ..t },
                ActionView::AskSize(t.remote_name()),
            )
        },
        Direction::Upload => quietly(
            TransferView { phase: Phase::OpeningLocal, ..t },
            ActionView::Open(t.req.local),
        ),
    }
}

/// The next piece is received, unless the transfer is canceled.
pub open spec fn receiving(t: TransferView, cancelled: bool) -> (TransferView, ActionView) {
    if cancelled {
        (TransferView { phase: Phase::Aborting, ..t }, ActionView::Abort)
    } else {
        (TransferView { phase: Phase::Reading, ..t }, ActionView::Read)
    }
}

/// `n` more bytes were moved. They are reported where the last report is long enough ago.
pub open spec fn counted(t: TransferView, n: u64, now: u128) -> (TransferView, Option<EventView>) {
    let done = (t.done + n) as u64;
    let elapsed = since(t.last_report, now);
    if elapsed >= PROGRESS_INTERVAL {
        (
            TransferView { done, last_done: done, last_report: now, ..t },
            Some(
                EventView::TaskProgress {
                    task_id: t.req.task_id,
                    done,
                    total: t.total,
                    speed: speed(done - t.last_done, elapsed / 1_000_000) as u64,
                },
            ),
        )
    } else {
        (TransferView { done, ..t }, None)
    }
}

/// The last report of a file that was moved as a whole.
pub open spec fn full_progress(t: TransferView) -> EventView {
    EventView::TaskProgress {
        task_id: t.req.task_id,
        done: if t.total > 0 || t.req.direction == Direction::Upload {
            t.total
        } else {
            t.done
        },
        total: t.total,
        speed: 0,
    }
}

/// The file was moved as a whole: the directory that now holds it is listed.
pub open spec fn moved(t: TransferView) -> Next {
    let emit = Some(full_progress(t));
    match t.req.direction {
        Direction::Download => match crate::local::dir_of(t.kind, t.req.local) {
            Some(path) => (
                TransferView { phase: Phase::Refreshing, path, ..t },
                ReplyView { emit, action: ActionView::ListLocal(path) },
            ),
            None => ended(t, OutcomeView::Completed, emit),
        },
        Direction::Upload => if t.remote_dir().len() == 0 {
            (
                TransferView { phase: Phase::Locating, ..t },
                ReplyView { emit, action: ActionView::AskDir },
            )
        } else {
            (
                TransferView { phase: Phase::Refreshing, path: t.remote_dir(), ..t },
                ReplyView { emit, action: ActionView::ListRemote(t.remote_dir()) },
            )
        },
    }
}

/// The directory was listed, or could not be.
pub open spec fn refreshed(t: TransferView, report: ReportView) -> EventView {
    match (t.req.direction, report) {
        (Direction::Download, ReportView::Entries(entries)) => EventView::LocalListing {
            path: t.path,
            entries,
        },
        (Direction::Upload, ReportView::Entries(entries)) => EventView::Listing {
            path: t.path,
            entries,
        },
        (Direction::Download, ReportView::Failed(text)) => EventView::LogLine {
            dir: LogDir::Error,
            text: "刷新本地目录失败："@ + text,
        },
        (_, ReportView::Failed(text)) => EventView::LogLine {
            dir: LogDir::Error,
            text: "刷新远程目录失败："@ + text,
        },
        _ => EventView::Connected,
    }
}

/// What a transfer does with a report, told whether its flag is set.
pub open spec fn transfer_step(t: TransferView, report: ReportView, cancelled: bool) -> Next {
    match (t.phase, report) {
        (Phase::Start, _) => if cancelled {
            ended(t, OutcomeView::Canceled, None)
        } else {
            quietly(TransferView { phase: Phase::Connecting, ..t }, ActionView::Connect)
        },
        (Phase::Connecting, ReportView::Failed(text)) => ended(t, OutcomeView::Failed(text), None),
        (Phase::Connecting, _) => if t.remote_dir().len() == 0 {
            entered(t)
        } else {
            quietly(
                TransferView { phase: Phase::Entering, ..t },
                ActionView::Enter(t.remote_dir()),
            )
        },
        (Phase::Entering, ReportView::Done) => entered(t),
        (Phase::Sizing, ReportView::Size(total)) => creating(t, total),
        (Phase::Sizing, ReportView::Failed(text)) => creating(t, 0),
        (Phase::Creating, ReportView::Created { now }) => quietly(
            TransferView { phase: Phase::Opening, last_report: now, ..t },
            ActionView::Retrieve(t.remote_name()),
        ),
        (Phase::Opening, ReportView::Done) => {
            let (next, action) = receiving(t, cancelled);
            quietly(next, action)
        },
        (Phase::Reading, ReportView::Bytes { n, now }) => match t.req.direction {
            Direction::Download => if n == 0 {
                quietly(TransferView { phase: Phase::Closing, ..t }, ActionView::Close)
            } else {
                quietly(
                    TransferView { phase: Phase::Writing, chunk: n, ..t },
                    ActionView::Write(n),
                )
            },
            Direction::Upload => {
                let (next, emit) = counted(t, n, now);
                (
                    TransferView { phase: Phase::Storing, ..next },
                    ReplyView { emit, action: ActionView::Supply(n) },
                )
            },
        },
        (Phase::Reading, ReportView::Failed(text)) => match t.req.direction {
            Direction::Download => quietly(
                TransferView { phase: Phase::Aborting, ..t },
                ActionView::Abort,
            ),
            Direction::Upload => quietly(
                TransferView { phase: Phase::Storing, ..t },
                ActionView::Abort,
            ),
        },
        (Phase::Writing, ReportView::Written { now }) => {
            let (next, emit) = counted(t, t.chunk, now);
            let (next, action) = receiving(next, cancelled);
            (next, ReplyView { emit, action })
        },
        (Phase::Writing, ReportView::Failed(text)) => quietly(
            TransferView { phase: Phase::Aborting, ..t },
            ActionView::Abort,
        ),
        (Phase::Closing, ReportView::Done) => moved(t),
        (Phase::OpeningLocal, ReportView::Opened { len, now }) => quietly(
            TransferView {
                phase: Phase::Storing,
                total: if t.req.size > 0 {
                    t.req.size
                } else {
                    match len {
                        Some(n) => n,
                        None => 0,
                    }
                },
                last_report: now,
                ..t
            },
            ActionView::Store(t.remote_name()),
        ),
        (Phase::Storing, ReportView::Wanted) => if cancelled {
            quietly(t, ActionView::Abort)
        } else {
            quietly(TransferView { phase: Phase::Reading, ..t }, ActionView::Read)
        },
        (Phase::Storing, ReportView::Done) => moved(t),
        (Phase::Locating, ReportView::Dir(path)) => quietly(
            TransferView { phase: Phase::Refreshing, path, ..t },
            ActionView::ListRemote(path),
        ),
        (Phase::Locating, ReportView::Failed(text)) => quietly(
            TransferView { phase: Phase::Refreshing, path: Seq::empty(), ..t },
            ActionView::ListRemote(Seq::empty()),
        ),
        (Phase::Refreshing, _) => ended(t, OutcomeView::Completed, Some(refreshed(t, report))),
        (Phase::Cleaning, _) => (
            TransferView { phase: Phase::Finished, ..t },
            ReplyView { emit: None, action: ActionView::Finish(t.outcome.unwrap()) },
        ),
        (_, ReportView::Failed(text)) => broken_off(t, text, cancelled),
        _ => quietly(t, ActionView::Abort),
    }
}

/// The first event of a transfer, which shows it as running.
pub fn first_event(req: &TransferRequest) -> (r: FtpEvent)
    ensures
        r.deep_view() == (EventView::TaskProgress {
            task_id: req.task_id,
            done: 0,
            total: req.size,
            speed: 0,
        }),
{
    FtpEvent::TaskProgress { task_id: req.task_id, done: 0, total: req.size, speed: 0 }
}

/// The last event of a transfer, and what the queue is told then.
pub fn last_event(task_id: u64, outcome: Outcome) -> (r: (FtpEvent, QueueCommand))
    ensures
        r.0.deep_view() == (EventView::TaskFinished { task_id, outcome: outcome.deep_view() }),
        r.1.deep_view() == QueueCommandView::TaskDone(task_id),
{
    (FtpEvent::TaskFinished { task_id, outcome }, QueueCommand::TaskDone(task_id))
}

impl Transfer {
    /// A transfer that has not begun.
    pub fn new(kind: PathKind, req: TransferRequest) -> (r: Self)
        ensures
            r@ == fresh(kind, req.deep_view()),
            r@.wf(),
    {
        let r = Transfer {
            kind,
            req,
            phase: Phase::Start,
            total: 0,
            done: 0,
            last_done: 0,
            last_report: 0,
            chunk: 0,
            path: String::new(),
            outcome: None,
        };
        assert(r@.path =~= Seq::<char>::empty());
        r
    }

    /// What the transfer waits for.
    pub fn phase(&self) -> (r: Phase)
        ensures
            r == self@.phase,
    {
        self.phase
    }

    /// Whether `n` more bytes at the time `now` can be counted, and their speed told. Once a piece
    /// is being written, `n` is its length.
    pub fn can_count(&self, n: u64, now: u128) -> (r: bool)
        requires
            self@.wf(),
        ensures
            r == self@.can_count(n, now),
    {
        if n > u64::MAX - self.done {
            return false;
        }
        let elapsed: u128 = if now >= self.last_report {
            now - self.last_report
        } else {
            0
        };
        elapsed < PROGRESS_INTERVAL || self.done + n - self.last_done <= u64::MAX / 1000
    }

    /// The name of the remote file in its directory.
    fn remote_name(&self) -> (r: String)
        ensures
            r@ == self@.remote_name(),
    {
        let (_dir, name) = split_remote(self.req.remote.as_str());
        name
    }

    fn quietly(&mut self, phase: Phase, action: Action) -> (r: Reply)
        ensures
            (final(self)@, r.deep_view()) == quietly(
                TransferView { phase, ..old(self)@ },
                action.deep_view(),
            ),
    {
        self.phase = phase;
        Reply { emit: None, action }
    }

    fn end(&mut self, outcome: Outcome, emit: Option<FtpEvent>) -> (r: Reply)
        ensures
            (final(self)@, r.deep_view()) == ended(
                old(self)@,
                outcome.deep_view(),
                emit.deep_view(),
            ),
    {
        self.phase = Phase::Finished;
        self.outcome = Some(outcome.clone());
        Reply { emit, action: Action::Finish(outcome) }
    }

    fn break_off(&mut self, text: String, cancelled: bool) -> (r: Reply)
        ensures
            (final(self)@, r.deep_view()) == broken_off(old(self)@, text@, cancelled),
    {
        self.outcome = Some(
            if cancelled {
                Outcome::Canceled
            } else {
                Outcome::Failed(text)
            },
        );
        let action = match self.req.direction {
            Direction::Download => Action::RemoveLocal(self.req.local.clone()),
            Direction::Upload => Action::RemoveRemote(self.remote_name()),
        };
        self.quietly(Phase::Cleaning, action)
    }

    fn create(&mut self, total: u64) -> (r: Reply)
        ensures
            (final(self)@, r.deep_view()) == creating(old(self)@, total),
    {
        self.total = total;
        let action = Action::Create(self.req.local.clone());
        self.quietly(Phase::Creating, action)
    }

    fn enter(&mut self) -> (r: Reply)
        ensures
            (final(self)@, r.deep_view()) == entered(old(self)@),
    {
        match self.req.direction {
            Direction::Download => {
                let size = self.req.size;
                if size > 0 {
                    self.create(size)
                } else {
                    let action = Action::AskSize(self.remote_name());
                    self.quietly(Phase::Sizing, action)
                }
            },
            Direction::Upload => {
                let action = Action::Open(self.req.local.clone());
                self.quietly(Phase::OpeningLocal, action)
            },
        }
    }

    fn receive(&mut self, cancelled: bool) -> (r: Action)
        ensures
            (final(self)@, r.deep_view()) == receiving(old(self)@, cancelled),
    {
        if cancelled {
            self.phase = Phase::Aborting;
            Action::Abort
        } else {
            self.phase = Phase::Reading;
            Action::Read
        }
    }

    fn count(&mut self, n: u64, now: u128) -> (r: Option<FtpEvent>)
        requires
            old(self)@.wf(),
            old(self)@.can_count(n, now),
        ensures
            (final(self)@, r.deep_view()) == counted(old(self)@, n, now),
    {
        self.done = self.done + n;
        let elapsed: u128 = if now >= self.last_report {
            now - self.last_report
        } else {
            0
        };
        if elapsed >= PROGRESS_INTERVAL {
            let speed = speed_of(self.done - self.last_done, elapsed / 1_000_000);
            self.last_report = now;
            self.last_done = self.done;
            Some(
                FtpEvent::TaskProgress {
                    task_id: self.req.task_id,
                    done: self.done,
                    total: self.total,
                    speed,
                },
            )
        } else {
            None
        }
    }

    fn conclude(&mut self) -> (r: Reply)
        ensures
            (final(self)@, r.deep_view()) == moved(old(self)@),
    {
        let done = match self.req.direction {
            Direction::Download => if self.total > 0 {
                self.total
            } else {
                self.done
            },
            Direction::Upload => self.total,
        };
        let emit = Some(
            FtpEvent::TaskProgress {
                task_id: self.req.task_id,
                done,
                total: self.total,
                speed: 0,
            },
        );
        match self.req.direction {
            Direction::Download => match dir(self.kind, self.req.local.as_str()) {
                Some(path) => {
                    self.path = path.clone();
                    self.phase = Phase::Refreshing;
                    Reply { emit, action: Action::ListLocal(path) }
                },
                None => self.end(Outcome::Completed, emit),
            },
            Direction::Upload => {
                let (path, _name) = split_remote(self.req.remote.as_str());
                if path.as_str().is_empty() {
                    self.phase = Phase::Locating;
                    Reply { emit, action: Action::AskDir }
                } else {
                    self.path = path.clone();
                    self.phase = Phase::Refreshing;
                    Reply { emit, action: Action::ListRemote(path) }
                }
            },
        }
    }

    fn list_remote(&mut self, path: String) -> (r: Reply)
        ensures
            (final(self)@, r.deep_view()) == quietly(
                TransferView { phase: Phase::Refreshing, path: path@, ..old(self)@ },
                ActionView::ListRemote(path@),
            ),
    {
        self.path = path.clone();
        self.quietly(Phase::Refreshing, Action::ListRemote(path))
    }

    fn refresh(&self, report: Report) -> (r: FtpEvent)
        ensures
            r.deep_view() == refreshed(self@, report.deep_view()),
    {
        match (self.req.direction, report) {
            (Direction::Download, Report::Entries(entries)) => FtpEvent::LocalListing {
                path: self.path.clone(),
                entries,
            },
            (Direction::Upload, Report::Entries(entries)) => FtpEvent::Listing {
                path: self.path.clone(),
                entries,
            },
            (Direction::Download, Report::Failed(text)) => FtpEvent::LogLine {
                dir: LogDir::Error,
                text: appended("刷新本地目录失败：", text.as_str()),
            },
            (Direction::Upload, Report::Failed(text)) => FtpEvent::LogLine {
                dir: LogDir::Error,
                text: appended("刷新远程目录失败：", text.as_str()),
            },
            _ => FtpEvent::Connected,
        }
    }

    /// Takes the report on the last action, told whether the transfer's flag is set, and says what
    /// is shown and done next.
    pub fn step(&mut self, report: Report, cancelled: bool) -> (r: Reply)
        requires
            old(self)@.wf(),
            old(self)@.expects(report.deep_view()),
            old(self)@.has_room(report.deep_view()),
        ensures
            (final(self)@, r.deep_view()) == transfer_step(
                old(self)@,
                report.deep_view(),
                cancelled,
            ),
            final(self)@.wf(),
    {
        let direction = self.req.direction;
        match (self.phase, report) {
            (Phase::Start, _) => if cancelled {
                self.end(Outcome::Canceled, None)
            } else {
                self.quietly(Phase::Connecting, Action::Connect)
            },
            (Phase::Connecting, Report::Failed(text)) => self.end(Outcome::Failed(text), None),
            (Phase::Connecting, _) => {
                let (path, _name) = split_remote(self.req.remote.as_str());
                if path.as_str().is_empty() {
                    self.enter()
                } else {
                    self.quietly(Phase::Entering, Action::Enter(path))
                }
            },
            (Phase::Entering, Report::Done) => self.enter(),
            (Phase::Sizing, Report::Size(total)) => self.create(total),
            (Phase::Sizing, Report::Failed(_)) => self.create(0),
            (Phase::Creating, Report::Created { now }) => {
                self.last_report = now;
                let action = Action::Retrieve(self.remote_name());
                self.quietly(Phase::Opening, action)
            },
            (Phase::Opening, Report::Done) => {
                let action = self.receive(cancelled);
                Reply { emit: None, action }
            },
            (Phase::Reading, Report::Bytes { n, now }) => match direction {
                Direction::Download => if n == 0 {
                    self.quietly(Phase::Closing, Action::Close)
                } else {
                    self.chunk = n;
                    self.quietly(Phase::Writing, Action::Write(n))
                },
                Direction::Upload => {
                    let emit = self.count(n, now);
                    self.phase = Phase::Storing;
                    Reply { emit, action: Action::Supply(n) }
                },
            },
            (Phase::Reading, Report::Failed(_)) => match direction {
                Direction::Download => self.quietly(Phase::Aborting, Action::Abort),
                Direction::Upload => self.quietly(Phase::Storing, Action::Abort),
            },
            (Phase::Writing, Report::Written { now }) => {
                let n = self.chunk;
                let emit = self.count(n, now);
                let action = self.receive(cancelled);
                Reply { emit, action }
            },
            (Phase::Writing, Report::Failed(_)) => self.quietly(Phase::Aborting, Action::Abort),
            (Phase::Closing, Report::Done) => self.conclude(),
            (Phase::OpeningLocal, Report::Opened { len, now }) => {
                self.total = if self.req.size > 0 {
                    self.req.size
                } else {
                    match len {
                        Some(n) => n,
                        None => 0,
                    }
                };
                self.last_report = now;
                let action = Action::Store(self.remote_name());
                self.quietly(Phase::Storing, action)
            },
            (Phase::Storing, Report::Wanted) => if cancelled {
                self.quietly(Phase::Storing, Action::Abort)
            } else {
                self.quietly(Phase::Reading, Action::Read)
            },
            (Phase::Storing, Report::Done) => self.conclude(),
            (Phase::Locating, Report::Dir(path)) => self.list_remote(path),
            (Phase::Locating, Report::Failed(_)) => self.list_remote(String::new()),
            (Phase::Refreshing, report) => {
                let emit = self.refresh(report);
                self.end(Outcome::Completed, Some(emit))
            },
            (Phase::Cleaning, _) => {
                let outcome = match &self.outcome {
                    Some(outcome) => outcome.clone(),
                    None => Outcome::Canceled,
                };
                self.quietly(Phase::Finished, Action::Finish(outcome))
            },
            (_, Report::Failed(text)) => self.break_off(text, cancelled),
            _ => Reply { emit: None, action: Action::Abort },
        }
    }
}

/// A report, and whether the transfer's flag was set when it came.
pub struct Input {
    pub report: ReportView,
    pub cancelled: bool,
}

/// The transfer after the inputs.
pub open spec fn after(t: TransferView, inputs: Seq<Input>) -> TransferView
    decreases inputs.len(),
{
    if inputs.len() == 0 {
        t
    } else {
        let last = inputs.last();
        transfer_step(after(t, inputs.drop_last()), last.report, last.cancelled).0
    }
}

/// What the transfer did, in order.
pub open spec fn actions(t: TransferView, inputs: Seq<Input>) -> Seq<ActionView>
    decreases inputs.len(),
{
    if inputs.len() == 0 {
        Seq::empty()
    } else {
        let last = inputs.last();
        actions(t, inputs.drop_last()).push(
            transfer_step(after(t, inputs.drop_last()), last.report, last.cancelled).1.action,
        )
    }
}

/// Whether every input is one that the transfer waits for.
pub open spec fn is_run(t: TransferView, inputs: Seq<Input>) -> bool
    decreases inputs.len(),
{
    inputs.len() > 0 ==> {
        let before = after(t, inputs.drop_last());
        let report = inputs.last().report;
        &&& is_run(t, inputs.drop_last())
        &&& before.expects(report)
        &&& before.has_room(report)
    }
}

/// Whether something is removed.
pub open spec fn is_removal(action: ActionView) -> bool {
    action is RemoveLocal || action is RemoveRemote
}

/// Whether the transfer is over, and not as it should be.
pub open spec fn fell_short(t: TransferView) -> bool {
    t.outcome matches Some(outcome) && outcome != OutcomeView::Completed
}

/// A transfer whose flag is set before it begins is canceled at once: nothing is connected,
/// created or removed.
pub proof fn canceled_beforehand(kind: PathKind, req: RequestView)
    ensures
        after(fresh(kind, req), seq![Input { report: ReportView::Begin, cancelled: true }]).outcome
            == Some(OutcomeView::Canceled),
        actions(fresh(kind, req), seq![Input { report: ReportView::Begin, cancelled: true }]) == seq![
            ActionView::Finish(OutcomeView::Canceled),
        ],
{
    let inputs = seq![Input { report: ReportView::Begin, cancelled: true }];
    assert(inputs.drop_last() =~= Seq::<Input>::empty());
    reveal_with_fuel(after, 2);
    reveal_with_fuel(actions, 2);
    assert(actions(fresh(kind, req), inputs) =~= seq![ActionView::Finish(OutcomeView::Canceled)]);
}

/// The steps keep the parts of a transfer together and leave its request alone.
proof fn lemma_run_wf(t: TransferView, inputs: Seq<Input>)
    requires
        t.wf(),
        is_run(t, inputs),
    ensures
        after(t, inputs).wf(),
        after(t, inputs).kind == t.kind,
        after(t, inputs).req == t.req,
    decreases inputs.len(),
{
    if inputs.len() > 0 {
        lemma_run_wf(t, inputs.drop_last());
    }
}

/// What a transfer has done so far agrees with what it waits for.
spec fn accounted(t: TransferView, done: Seq<ActionView>) -> bool {
    &&& t.phase == Phase::Cleaning ==> done.contains(t.cleanup()) && fell_short(t)
    &&& t.phase == Phase::Finished && fell_short(t) ==> done.contains(t.cleanup()) || forall|
        i: int,
    |
        0 <= i < done.len() ==> #[trigger] done[i] is Connect || done[i] is Finish
    &&& t.phase == Phase::Start || t.phase == Phase::Connecting ==> forall|i: int|
        0 <= i < done.len() ==> #[trigger] done[i] is Connect
    &&& t.phase != Phase::Cleaning && !fell_short(t) ==> forall|i: int|
        0 <= i < done.len() ==> !is_removal(#[trigger] done[i])
    &&& t.phase == Phase::Closing || (t.req.direction == Direction::Download && (t.phase
        == Phase::Refreshing || (t.phase == Phase::Finished && !fell_short(t)))) ==> done.contains(
        ActionView::Close,
    )
    &&& (t.phase == Phase::Storing || t.phase == Phase::Reading || t.phase == Phase::Locating
        || t.phase == Phase::Refreshing || (t.phase == Phase::Finished && !fell_short(t)))
        && t.req.direction == Direction::Upload ==> done.contains(
        ActionView::Store(t.remote_name()),
    )
    &&& t.phase == Phase::Sizing || t.phase == Phase::Creating || t.phase == Phase::Opening
        || t.phase == Phase::Writing || t.phase == Phase::Aborting || t.phase == Phase::Closing
        ==> t.req.direction == Direction::Download
    &&& t.phase == Phase::OpeningLocal || t.phase == Phase::Storing || t.phase == Phase::Locating
        ==> t.req.direction == Direction::Upload
    &&& t.outcome matches Some(outcome) ==> t.phase == Phase::Cleaning || done.contains(
        ActionView::Finish(outcome),
    )
}

proof fn lemma_contains_push(done: Seq<ActionView>, action: ActionView)
    ensures
        done.push(action).contains(action),
        forall|a: ActionView| done.contains(a) ==> #[trigger] done.push(action).contains(a),
{
    assert(done.push(action)[done.len() as int] == action);
    assert forall|a: ActionView| done.contains(a) implies #[trigger] done.push(action).contains(
        a,
    ) by {
        let i = choose|i: int| 0 <= i < done.len() && done[i] == a;
        assert(done.push(action)[i] == a);
    }
}

#[verifier::spinoff_prover]
proof fn lemma_accounted_step(
    t: TransferView,
    done: Seq<ActionView>,
    report: ReportView,
    cancelled: bool,
)
    requires
        t.wf(),
        t.expects(report),
        accounted(t, done),
    ensures
        accounted(
            transfer_step(t, report, cancelled).0,
            done.push(transfer_step(t, report, cancelled).1.action),
        ),
{
    let (next, reply) = transfer_step(t, report, cancelled);
    lemma_contains_push(done, reply.action);
    assert(next.cleanup() == t.cleanup());
}

proof fn lemma_accounted(kind: PathKind, req: RequestView, inputs: Seq<Input>)
    requires
        is_run(fresh(kind, req), inputs),
    ensures
        accounted(after(fresh(kind, req), inputs), actions(fresh(kind, req), inputs)),
    decreases inputs.len(),
{
    if inputs.len() > 0 {
        let earlier = inputs.drop_last();
        lemma_accounted(kind, req, earlier);
        lemma_run_wf(fresh(kind, req), earlier);
        let t = after(fresh(kind, req), earlier);
        let done = actions(fresh(kind, req), earlier);
        let last = inputs.last();
        lemma_accounted_step(t, done, last.report, last.cancelled);
    }
}

/// A transfer that failed or was canceled leaves nothing behind: either it never had a
/// connection, or it removed what it had begun, the local file of a download and the remote file
/// of an upload.
pub proof fn unfinished_work_is_removed(kind: PathKind, req: RequestView, inputs: Seq<Input>)
    requires
        is_run(fresh(kind, req), inputs),
        after(fresh(kind, req), inputs).phase == Phase::Finished,
        fell_short(after(fresh(kind, req), inputs)),
    ensures
        actions(fresh(kind, req), inputs).contains(fresh(kind, req).cleanup()) || forall|i: int|
            0 <= i < actions(fresh(kind, req), inputs).len() ==> #[trigger] actions(
                fresh(kind, req),
                inputs,
            )[i] is Connect || actions(fresh(kind, req), inputs)[i] is Finish,
{
    lemma_accounted(kind, req, inputs);
    lemma_run_wf(fresh(kind, req), inputs);
    assert(after(fresh(kind, req), inputs).cleanup() == fresh(kind, req).cleanup());
}

/// A transfer that completed removed nothing. A download came to the end of the file and closed
/// the data connection; an upload stored the file under its name.
pub proof fn completed_work_is_kept(kind: PathKind, req: RequestView, inputs: Seq<Input>)
    requires
        is_run(fresh(kind, req), inputs),
        after(fresh(kind, req), inputs).outcome == Some(OutcomeView::Completed),
    ensures
        forall|i: int|
            0 <= i < actions(fresh(kind, req), inputs).len() ==> !is_removal(
                #[trigger] actions(fresh(kind, req), inputs)[i],
            ),
        actions(fresh(kind, req), inputs).contains(
            match req.direction {
                Direction::Download => ActionView::Close,
                Direction::Upload => ActionView::Store(fresh(kind, req).remote_name()),
            },
        ),
        actions(fresh(kind, req), inputs).contains(ActionView::Finish(OutcomeView::Completed)),
{
    lemma_accounted(kind, req, inputs);
    lemma_run_wf(fresh(kind, req), inputs);
    let t = after(fresh(kind, req), inputs);
    assert(t.remote_name() == fresh(kind, req).remote_name());
}

/// The bytes that an input adds to those that were moved.
pub open spec fn bytes_of(t: TransferView, report: ReportView) -> int {
    match (t.phase, report) {
        (Phase::Reading, ReportView::Bytes { n, now }) => if t.req.direction
            == Direction::Upload {
            n as int
        } else {
            0
        },
        (Phase::Writing, ReportView::Written { now }) => t.chunk as int,
        _ => 0,
    }
}

/// The bytes that the inputs add: every piece that was written or supplied.
pub open spec fn bytes_moved(t: TransferView, inputs: Seq<Input>) -> int
    decreases inputs.len(),
{
    if inputs.len() == 0 {
        0
    } else {
        bytes_moved(t, inputs.drop_last()) + bytes_of(
            after(t, inputs.drop_last()),
            inputs.last().report,
        )
    }
}

/// Every byte counts once: what a transfer reports as done is what was moved.
pub proof fn progress_adds_up(kind: PathKind, req: RequestView, inputs: Seq<Input>)
    requires
        is_run(fresh(kind, req), inputs),
    ensures
        after(fresh(kind, req), inputs).done == bytes_moved(fresh(kind, req), inputs),
    decreases inputs.len(),
{
    if inputs.len() > 0 {
        progress_adds_up(kind, req, inputs.drop_last());
        lemma_run_wf(fresh(kind, req), inputs.drop_last());
    }
}

/// While a file is moved, reports come no closer than a tenth of a second: one comes only when the last
/// one is that long ago, and the clock is then set anew. It tells the bytes moved so far and the
/// speed since the last report.
pub proof fn reports_are_throttled(t: TransferView, report: ReportView, cancelled: bool, now: u128)
    requires
        t.wf(),
        t.expects(report),
        t.has_room(report),
        report == (ReportView::Written { now }) || (report matches ReportView::Bytes { n, now: at }
            && at == now && t.req.direction == Direction::Upload),
    ensures
        ({
            let (next, reply) = transfer_step(t, report, cancelled);
            match reply.emit {
                Some(event) => {
                    &&& now - t.last_report >= 100_000_000
                    &&& next.last_report == now
                    &&& event == (EventView::TaskProgress {
                        task_id: t.req.task_id,
                        done: next.done,
                        total: t.total,
                        speed: speed(
                            next.done - t.last_done,
                            (now - t.last_report) / 1_000_000,
                        ) as u64,
                    })
                    &&& next.done == t.done + match report {
                        ReportView::Bytes { n, now: at } => n,
                        _ => t.chunk,
                    }
                    &&& next.last_done == next.done
                },
                None => {
                    &&& now - t.last_report < 100_000_000
                    &&& next.last_report == t.last_report
                    &&& next.last_done == t.last_done
                },
            }
        }),
{
}

/// The flag is heeded before every piece: once it is set, no further piece is read.
pub proof fn canceled_transfers_read_no_more(t: TransferView, report: ReportView)
    requires
        t.wf(),
        t.expects(report),
    ensures
        transfer_step(t, report, true).1.action != ActionView::Read,
        match transfer_step(t, report, true).0.outcome {
            Some(outcome) => t.outcome.is_some() || t.phase == Phase::Connecting || outcome
                == OutcomeView::Canceled || outcome == OutcomeView::Completed,
            None => true,
        },
{
}

/// Whether the answer to an earlier action, before the one at `i`, was that the directory was
/// entered.
pub open spec fn entered_before(
    dir: Seq<char>,
    inputs: Seq<Input>,
    done: Seq<ActionView>,
    i: int,
) -> bool {
    exists|j: int|
        0 <= j < i && #[trigger] done[j] == ActionView::Enter(dir) && inputs[j + 1].report
            == ReportView::Done
}

/// Whether the phase comes once the remote directory is entered.
spec fn is_inside(phase: Phase) -> bool {
    match phase {
        Phase::Start => false,
        Phase::Connecting => false,
        Phase::Entering => false,
        Phase::Cleaning => false,
        Phase::Finished => false,
        _ => true,
    }
}

/// Whether the transfer has named files on the server only from inside their directory.
spec fn in_place(t: TransferView, inputs: Seq<Input>, done: Seq<ActionView>) -> bool {
    let dir = t.remote_dir();
    &&& done.len() == inputs.len()
    &&& dir.len() > 0 ==> forall|i: int|
        0 <= i < done.len() && ((#[trigger] done[i]) is AskSize || done[i] is Retrieve
            || done[i] is Store) ==> entered_before(dir, inputs, done, i)
    &&& dir.len() > 0 && is_inside(t.phase) ==> done.len() > 0 && entered_before(
        dir,
        inputs,
        done,
        done.len() - 1,
    )
    &&& t.phase == Phase::Entering ==> done.len() > 0 && done.last() == ActionView::Enter(dir)
}

proof fn lemma_entered_grows(
    dir: Seq<char>,
    inputs: Seq<Input>,
    done: Seq<ActionView>,
    i: int,
    input: Input,
    action: ActionView,
    k: int,
)
    requires
        done.len() == inputs.len(),
        0 <= i < done.len(),
        entered_before(dir, inputs, done, i),
        i <= k,
    ensures
        entered_before(dir, inputs.push(input), done.push(action), k),
{
    let j = choose|j: int|
        0 <= j < i && #[trigger] done[j] == ActionView::Enter(dir) && inputs[j + 1].report
            == ReportView::Done;
    assert(done.push(action)[j] == ActionView::Enter(dir));
    assert(inputs.push(input)[j + 1] == inputs[j + 1]);
}

#[verifier::spinoff_prover]
proof fn lemma_in_place_step(
    t: TransferView,
    inputs: Seq<Input>,
    done: Seq<ActionView>,
    input: Input,
)
    requires
        t.wf(),
        t.expects(input.report),
        in_place(t, inputs, done),
    ensures
        ({
            let (next, reply) = transfer_step(t, input.report, input.cancelled);
            in_place(next, inputs.push(input), done.push(reply.action))
        }),
{
    let (next, reply) = transfer_step(t, input.report, input.cancelled);
    let dir = t.remote_dir();
    let n = done.len() as int;
    let now = done.push(reply.action);
    let heard = inputs.push(input);
    assert(next.remote_dir() == dir);
    assert(now[n] == reply.action);
    if dir.len() > 0 {
        if is_inside(next.phase) || reply.action is AskSize || reply.action is Retrieve
            || reply.action is Store {
            if t.phase == Phase::Entering {
                assert(input.report == ReportView::Done);
                assert(now[n - 1] == done.last());
                assert(heard[n] == input);
            } else {
                lemma_entered_grows(dir, inputs, done, n - 1, input, reply.action, n);
            }
            assert(entered_before(dir, heard, now, n));
        }
        assert forall|i: int|
            0 <= i < now.len() && ((#[trigger] now[i]) is AskSize || now[i] is Retrieve
                || now[i] is Store) implies entered_before(dir, heard, now, i) by {
            if i < n {
                assert(now[i] == done[i]);
                lemma_entered_grows(dir, inputs, done, i, input, reply.action, i);
            }
        }
    }
}

proof fn lemma_in_place(kind: PathKind, req: RequestView, inputs: Seq<Input>)
    requires
        is_run(fresh(kind, req), inputs),
    ensures
        in_place(after(fresh(kind, req), inputs), inputs, actions(fresh(kind, req), inputs)),
    decreases inputs.len(),
{
    if inputs.len() > 0 {
        let earlier = inputs.drop_last();
        lemma_in_place(kind, req, earlier);
        lemma_run_wf(fresh(kind, req), earlier);
        lemma_in_place_step(
            after(fresh(kind, req), earlier),
            earlier,
            actions(fresh(kind, req), earlier),
            inputs.last(),
        );
        assert(earlier.push(inputs.last()) =~= inputs);
    }
}

/// Whether an action of a transfer is about the files that were asked for: a download reads the
/// remote file and writes the local one, an upload the other way round, and a file on the server
/// goes by its name in its directory.
pub open spec fn is_about(kind: PathKind, req: RequestView, action: ActionView) -> bool {
    let (dir, name) = crate::ftp::types::split_at_slash(req.remote);
    let down = req.direction == Direction::Download;
    match action {
        ActionView::Enter(path) => path == dir && dir.len() > 0,
        ActionView::AskSize(n) => down && n == name,
        ActionView::Retrieve(n) => down && n == name,
        ActionView::Create(path) => down && path == req.local,
        ActionView::Write(n) => down && n > 0,
        ActionView::Close => down,
        ActionView::RemoveLocal(path) => down && path == req.local,
        ActionView::ListLocal(path) => down && crate::local::dir_of(kind, req.local) == Some(path),
        ActionView::Open(path) => !down && path == req.local,
        ActionView::Store(n) => !down && n == name,
        ActionView::Supply(n) => !down,
        ActionView::RemoveRemote(n) => !down && n == name,
        ActionView::AskDir => !down && dir.len() == 0,
        ActionView::ListRemote(path) => !down && (dir.len() > 0 ==> path == dir),
        _ => true,
    }
}

/// Whether `action` is what a transfer in this phase waits for the answer to.
spec fn waits_for(t: TransferView, action: ActionView) -> bool {
    let down = t.req.direction == Direction::Download;
    match t.phase {
        Phase::Start => false,
        Phase::Connecting => action is Connect,
        Phase::Entering => action is Enter,
        Phase::Sizing => down && action is AskSize,
        Phase::Creating => down && action is Create,
        Phase::Opening => down && action is Retrieve,
        Phase::Reading => action is Read,
        Phase::Writing => down && action == ActionView::Write(t.chunk),
        Phase::Aborting => down && action is Abort,
        Phase::Closing => down && action is Close,
        Phase::OpeningLocal => !down && action is Open,
        Phase::Storing => !down && (action is Store || action is Supply || action is Abort),
        Phase::Locating => !down && action is AskDir,
        Phase::Refreshing => if down {
            action == ActionView::ListLocal(t.path)
        } else {
            action == ActionView::ListRemote(t.path)
        },
        Phase::Cleaning => action == t.cleanup(),
        Phase::Finished => action is Finish,
    }
}

/// Whether the transfer did nothing that was not asked for, and waits for the answer to what it
/// did last.
spec fn on_course(t: TransferView, inputs: Seq<Input>, done: Seq<ActionView>) -> bool {
    &&& done.len() == inputs.len()
    &&& done.len() == 0 ==> t.phase == Phase::Start
    &&& done.len() > 0 ==> waits_for(t, done.last())
    &&& forall|i: int| 0 <= i < done.len() ==> is_about(t.kind, t.req, #[trigger] done[i])
    &&& t.phase == Phase::Cleaning ==> (inputs.last().report matches ReportView::Failed(text)
        && t.outcome == Some(
        if inputs.last().cancelled {
            OutcomeView::Canceled
        } else {
            OutcomeView::Failed(text)
        },
    ))
}

#[verifier::spinoff_prover]
proof fn lemma_on_course_step(
    t: TransferView,
    inputs: Seq<Input>,
    done: Seq<ActionView>,
    input: Input,
)
    requires
        t.wf(),
        t.expects(input.report),
        on_course(t, inputs, done),
    ensures
        ({
            let (next, reply) = transfer_step(t, input.report, input.cancelled);
            on_course(next, inputs.push(input), done.push(reply.action))
        }),
{
    let (next, reply) = transfer_step(t, input.report, input.cancelled);
    let now = done.push(reply.action);
    assert(now.last() == reply.action);
    assert(inputs.push(input).last() == input);
    assert(next.cleanup() == t.cleanup());
    assert(is_about(t.kind, t.req, reply.action));
    assert forall|i: int| 0 <= i < now.len() implies is_about(
        next.kind,
        next.req,
        #[trigger] now[i],
    ) by {
        if i < done.len() {
            assert(now[i] == done[i]);
        }
    }
}

proof fn lemma_on_course(kind: PathKind, req: RequestView, inputs: Seq<Input>)
    requires
        is_run(fresh(kind, req), inputs),
    ensures
        on_course(after(fresh(kind, req), inputs), inputs, actions(fresh(kind, req), inputs)),
    decreases inputs.len(),
{
    if inputs.len() > 0 {
        let earlier = inputs.drop_last();
        lemma_on_course(kind, req, earlier);
        lemma_run_wf(fresh(kind, req), earlier);
        lemma_on_course_step(
            after(fresh(kind, req), earlier),
            earlier,
            actions(fresh(kind, req), earlier),
            inputs.last(),
        );
        assert(earlier.push(inputs.last()) =~= inputs);
    }
}

/// A transfer names a file on the server only from inside the file's directory: before its size is
/// asked for, before it is received and before it is sent, the directory part of the remote path
/// was entered, and the server said that it was. The directory and the name make up that path.
pub proof fn files_are_named_in_their_directory(
    kind: PathKind,
    req: RequestView,
    inputs: Seq<Input>,
    i: int,
    name: Seq<char>,
)
    requires
        is_run(fresh(kind, req), inputs),
        0 <= i < inputs.len(),
        ({
            let action = actions(fresh(kind, req), inputs)[i];
            ||| action == ActionView::AskSize(name)
            ||| action == ActionView::Retrieve(name)
            ||| action == ActionView::Store(name)
        }),
    ensures
        ({
            let path = crate::ftp::types::unslashed(req.remote);
            let done = actions(fresh(kind, req), inputs);
            if path.contains('/') {
                exists|j: int|
                    {
                        &&& 0 <= j < i
                        &&& inputs[j + 1].report == ReportView::Done
                        &&& #[trigger] done[j] matches ActionView::Enter(dir) && (path == dir
                            + seq!['/'] + name || (dir == seq!['/'] && path == dir + name))
                    }
            } else {
                name == path
            }
        }),
{
    lemma_in_place(kind, req, inputs);
    lemma_on_course(kind, req, inputs);
    lemma_run_wf(fresh(kind, req), inputs);
    let t = after(fresh(kind, req), inputs);
    let done = actions(fresh(kind, req), inputs);
    assert(is_about(t.kind, t.req, done[i]));
    crate::ftp::types::split_parts_make_up_the_path(req.remote);
    let dir = t.remote_dir();
    if crate::ftp::types::unslashed(req.remote).contains('/') {
        assert(entered_before(dir, inputs, done, i));
        let j = choose|j: int|
            0 <= j < i && #[trigger] done[j] == ActionView::Enter(dir) && inputs[j + 1].report
                == ReportView::Done;
        assert(done[j] == ActionView::Enter(dir));
    }
}

/// Every action of a transfer is about the files that were asked for.
pub proof fn transfers_touch_only_their_files(
    kind: PathKind,
    req: RequestView,
    inputs: Seq<Input>,
    i: int,
)
    requires
        is_run(fresh(kind, req), inputs),
        0 <= i < inputs.len(),
    ensures
        is_about(kind, req, actions(fresh(kind, req), inputs)[i]),
{
    lemma_on_course(kind, req, inputs);
    lemma_run_wf(fresh(kind, req), inputs);
    assert(is_about(kind, req, actions(fresh(kind, req), inputs)[i]));
}

/// Whether the report at `i` is the server's word that the file was moved as a whole: that the
/// data connection of a download was closed at the end of the file, or that an upload was stored.
pub open spec fn confirms(
    req: RequestView,
    inputs: Seq<Input>,
    done: Seq<ActionView>,
    i: int,
) -> bool {
    &&& 0 < i < inputs.len()
    &&& inputs[i].report == ReportView::Done
    &&& match req.direction {
        Direction::Download => {
            &&& done[i - 1] == ActionView::Close
            &&& inputs[i - 1].report matches ReportView::Bytes { n, now } && n == 0
        },
        Direction::Upload => exists|j: int|
            0 <= j < i && #[trigger] done[j] == ActionView::Store(
                crate::ftp::types::split_at_slash(req.remote).1,
            ),
    }
}

/// What is known of how a transfer ends: it is complete only where that was confirmed, failed only
/// with a message that came, and canceled only where the flag was set.
spec fn well_founded(t: TransferView, inputs: Seq<Input>, done: Seq<ActionView>) -> bool {
    &&& done.len() == inputs.len()
    &&& t.phase == Phase::Locating || t.phase == Phase::Refreshing || t.outcome == Some(
        OutcomeView::Completed,
    ) ==> exists|i: int| #[trigger] confirms(t.req, inputs, done, i)
    &&& t.phase == Phase::Closing ==> done.len() > 0 && done.last() == ActionView::Close && (
    inputs.last().report matches ReportView::Bytes { n, now } && n == 0) && t.req.direction
        == Direction::Download
    &&& t.phase == Phase::Storing || (t.phase == Phase::Reading && t.req.direction
        == Direction::Upload) ==> t.req.direction == Direction::Upload && exists|j: int|
        0 <= j < done.len() && #[trigger] done[j] == ActionView::Store(t.remote_name())
    &&& t.outcome matches Some(OutcomeView::Failed(text)) ==> exists|i: int|
        0 <= i < inputs.len() && (#[trigger] inputs[i]).report == ReportView::Failed(text)
    &&& t.outcome == Some(OutcomeView::Canceled) ==> exists|i: int|
        0 <= i < inputs.len() && (#[trigger] inputs[i]).cancelled
}

proof fn lemma_confirms_grows(
    req: RequestView,
    inputs: Seq<Input>,
    done: Seq<ActionView>,
    i: int,
    input: Input,
    action: ActionView,
)
    requires
        done.len() == inputs.len(),
        confirms(req, inputs, done, i),
    ensures
        confirms(req, inputs.push(input), done.push(action), i),
{
    let now = done.push(action);
    if req.direction == Direction::Upload {
        let store = ActionView::Store(crate::ftp::types::split_at_slash(req.remote).1);
        let j = choose|j: int| 0 <= j < i && #[trigger] done[j] == store;
        assert(now[j] == store);
    }
}

#[verifier::spinoff_prover]
proof fn lemma_well_founded_step(
    t: TransferView,
    inputs: Seq<Input>,
    done: Seq<ActionView>,
    input: Input,
)
    requires
        t.wf(),
        t.expects(input.report),
        on_course(t, inputs, done),
        well_founded(t, inputs, done),
    ensures
        ({
            let (next, reply) = transfer_step(t, input.report, input.cancelled);
            well_founded(next, inputs.push(input), done.push(reply.action))
        }),
{
    let (next, reply) = transfer_step(t, input.report, input.cancelled);
    let n = done.len() as int;
    let now = done.push(reply.action);
    let heard = inputs.push(input);
    assert(now.last() == reply.action);
    assert(heard[n] == input);
    assert(next.req == t.req);
    assert(next.remote_name() == t.remote_name());
    let store = ActionView::Store(t.remote_name());
    if exists|i: int| #[trigger] confirms(t.req, inputs, done, i) {
        let i = choose|i: int| #[trigger] confirms(t.req, inputs, done, i);
        lemma_confirms_grows(t.req, inputs, done, i, input, reply.action);
    }
    if exists|j: int| 0 <= j < done.len() && #[trigger] done[j] == store {
        let j = choose|j: int| 0 <= j < done.len() && #[trigger] done[j] == store;
        assert(now[j] == store);
        if t.phase == Phase::Storing && input.report == ReportView::Done {
            assert(confirms(t.req, heard, now, n));
        }
    }
    if reply.action == store {
        assert(now[n] == store);
    }
    if t.phase == Phase::Closing && input.report == ReportView::Done {
        assert(now[n - 1] == done.last());
        assert(heard[n - 1] == inputs.last());
        assert(confirms(t.req, heard, now, n));
    }
    if t.outcome.is_some() {
        match t.outcome.unwrap() {
            OutcomeView::Failed(text) => {
                let i = choose|i: int|
                    0 <= i < inputs.len() && (#[trigger] inputs[i]).report == ReportView::Failed(
                        text,
                    );
                assert(heard[i].report == ReportView::Failed(text));
            },
            OutcomeView::Canceled => {
                let i = choose|i: int| 0 <= i < inputs.len() && (#[trigger] inputs[i]).cancelled;
                assert(heard[i].cancelled);
            },
            OutcomeView::Completed => {},
        }
    }
}

proof fn lemma_well_founded(kind: PathKind, req: RequestView, inputs: Seq<Input>)
    requires
        is_run(fresh(kind, req), inputs),
    ensures
        well_founded(after(fresh(kind, req), inputs), inputs, actions(fresh(kind, req), inputs)),
    decreases inputs.len(),
{
    if inputs.len() > 0 {
        let earlier = inputs.drop_last();
        lemma_well_founded(kind, req, earlier);
        lemma_on_course(kind, req, earlier);
        lemma_run_wf(fresh(kind, req), earlier);
        lemma_well_founded_step(
            after(fresh(kind, req), earlier),
            earlier,
            actions(fresh(kind, req), earlier),
            inputs.last(),
        );
        assert(earlier.push(inputs.last()) =~= inputs);
    }
}

/// A transfer is shown as completed only where the server confirmed it, as failed only with a
/// message that some action brought, and as canceled only where its flag was set.
pub proof fn outcomes_have_causes(
    kind: PathKind,
    req: RequestView,
    inputs: Seq<Input>,
    i: int,
    outcome: OutcomeView,
)
    requires
        is_run(fresh(kind, req), inputs),
        0 <= i < inputs.len(),
        actions(fresh(kind, req), inputs)[i] == ActionView::Finish(outcome),
    ensures
        match outcome {
            OutcomeView::Completed => exists|k: int| #[trigger]
                confirms(req, inputs, actions(fresh(kind, req), inputs), k),
            OutcomeView::Failed(text) => exists|k: int|
                0 <= k < inputs.len() && (#[trigger] inputs[k]).report == ReportView::Failed(text),
            OutcomeView::Canceled => exists|k: int|
                0 <= k < inputs.len() && (#[trigger] inputs[k]).cancelled,
        },
{
    lemma_well_founded(kind, req, inputs);
    lemma_on_course(kind, req, inputs);
    lemma_run_wf(fresh(kind, req), inputs);
    lemma_finish_is_last(kind, req, inputs, i, outcome);
}

/// Nothing follows the end of a transfer, and it tells the outcome.
proof fn lemma_finish_is_last(
    kind: PathKind,
    req: RequestView,
    inputs: Seq<Input>,
    i: int,
    outcome: OutcomeView,
)
    requires
        is_run(fresh(kind, req), inputs),
        0 <= i < inputs.len(),
        actions(fresh(kind, req), inputs)[i] == ActionView::Finish(outcome),
    ensures
        i == inputs.len() - 1,
        after(fresh(kind, req), inputs).phase == Phase::Finished,
        after(fresh(kind, req), inputs).outcome == Some(outcome),
    decreases inputs.len(),
{
    let earlier = inputs.drop_last();
    let t = after(fresh(kind, req), earlier);
    lemma_run_wf(fresh(kind, req), earlier);
    lemma_on_course(kind, req, earlier);
    lemma_on_course(kind, req, inputs);
    if i < inputs.len() - 1 {
        assert(actions(fresh(kind, req), inputs)[i] == actions(fresh(kind, req), earlier)[i]);
        lemma_finish_is_last(kind, req, earlier, i, outcome);
    }
}

/// Whether a transfer can go on though this action failed: the size of the file need not be known,
/// nor need the directory be listed in the end; a piece that cannot be moved breaks the data
/// connection off first; and nothing can be done about what cannot be removed.
pub open spec fn may_fail(action: ActionView) -> bool {
    match action {
        ActionView::AskSize(name) => true,
        ActionView::AskDir => true,
        ActionView::ListLocal(path) => true,
        ActionView::ListRemote(path) => true,
        ActionView::Read => true,
        ActionView::Write(n) => true,
        ActionView::RemoveLocal(path) => true,
        ActionView::RemoveRemote(name) => true,
        _ => false,
    }
}

/// What fails is told: where an action fails that must not, the transfer ends as failed, with that
/// message, or as canceled where its flag is set. A transfer without a connection ends at once;
/// any other removes the file that it began to write.
pub proof fn failures_end_transfers(
    kind: PathKind,
    req: RequestView,
    inputs: Seq<Input>,
    text: Seq<char>,
)
    requires
        is_run(fresh(kind, req), inputs),
        inputs.len() > 1,
        inputs.last().report == ReportView::Failed(text),
        !may_fail(actions(fresh(kind, req), inputs)[inputs.len() - 2]),
    ensures
        ({
            let done = actions(fresh(kind, req), inputs);
            let last = done[inputs.len() - 2];
            let outcome = if inputs.last().cancelled && last != ActionView::Connect {
                OutcomeView::Canceled
            } else {
                OutcomeView::Failed(text)
            };
            &&& after(fresh(kind, req), inputs).outcome == Some(outcome)
            &&& done.last() == if last == ActionView::Connect {
                ActionView::Finish(outcome)
            } else if req.direction == Direction::Download {
                ActionView::RemoveLocal(req.local)
            } else {
                ActionView::RemoveRemote(crate::ftp::types::split_at_slash(req.remote).1)
            }
        }),
{
    let earlier = inputs.drop_last();
    let t = after(fresh(kind, req), earlier);
    lemma_run_wf(fresh(kind, req), earlier);
    lemma_on_course(kind, req, earlier);
    let done = actions(fresh(kind, req), earlier);
    assert(actions(fresh(kind, req), inputs)[inputs.len() - 2] == done.last());
}

/// A transfer that removed what it had begun to write then ends, whatever came of the removal, as
/// the failure before it said.
pub proof fn removals_end_transfers(kind: PathKind, req: RequestView, inputs: Seq<Input>)
    requires
        is_run(fresh(kind, req), inputs),
        inputs.len() > 1,
        is_removal(actions(fresh(kind, req), inputs)[inputs.len() - 2]),
    ensures
        ({
            let before = inputs[inputs.len() - 2];
            let done = actions(fresh(kind, req), inputs);
            before.report matches ReportView::Failed(text) && done.last() == ActionView::Finish(
                if before.cancelled {
                    OutcomeView::Canceled
                } else {
                    OutcomeView::Failed(text)
                },
            )
        }),
{
    let earlier = inputs.drop_last();
    lemma_run_wf(fresh(kind, req), earlier);
    lemma_on_course(kind, req, earlier);
    let done = actions(fresh(kind, req), earlier);
    assert(actions(fresh(kind, req), inputs)[inputs.len() - 2] == done.last());
    assert(earlier.last() == inputs[inputs.len() - 2]);
}

/// Success leads on: once an action succeeded, the next one is the next in the course of a
/// transfer. A connection is made, the directory of the file is entered, and a download asks for
/// the size that it was not told, creates the local file and receives the remote one, while an
/// upload opens the local file and sends it; the pieces are passed on as they come, for as long as
/// the flag is not set; and in the end the directory is listed that holds the file now.
pub proof fn success_leads_on(kind: PathKind, req: RequestView, inputs: Seq<Input>)
    requires
        is_run(fresh(kind, req), inputs),
        inputs.len() > 1,
    ensures
        ({
            let done = actions(fresh(kind, req), inputs);
            let last = done[inputs.len() - 2];
            let next = done.last();
            let report = inputs.last().report;
            let go_on = !inputs.last().cancelled;
            let (dir, name) = crate::ftp::types::split_at_slash(req.remote);
            let down = req.direction == Direction::Download;
            &&& last is Connect && report is Done && dir.len() > 0 ==> next == ActionView::Enter(dir)
            &&& ((last is Connect && dir.len() == 0) || last is Enter) && report is Done ==> next
                == if !down {
                ActionView::Open(req.local)
            } else if req.size == 0 {
                ActionView::AskSize(name)
            } else {
                ActionView::Create(req.local)
            }
            &&& last is AskSize ==> next == ActionView::Create(req.local)
            &&& last is Create && report is Created ==> next == ActionView::Retrieve(name)
            &&& (last is Retrieve && report is Done) || report is Written || report is Wanted
                ==> next == if go_on {
                ActionView::Read
            } else {
                ActionView::Abort
            }
            &&& report matches ReportView::Bytes { n, now } ==> last is Read && next == if !down {
                ActionView::Supply(n)
            } else if n == 0 {
                ActionView::Close
            } else {
                ActionView::Write(n)
            }
            &&& (last is Read || last is Write) && report is Failed ==> next == ActionView::Abort
            &&& report is Opened ==> last is Open && next == ActionView::Store(name)
            &&& last is Close && report is Done ==> next == match crate::local::dir_of(
                kind,
                req.local,
            ) {
                Some(path) => ActionView::ListLocal(path),
                None => ActionView::Finish(OutcomeView::Completed),
            }
            &&& (last is Store || last is Supply || last is Abort) && report is Done ==> next
                == if dir.len() > 0 {
                ActionView::ListRemote(dir)
            } else {
                ActionView::AskDir
            }
            &&& report matches ReportView::Dir(path) ==> next == ActionView::ListRemote(path)
            &&& last is AskDir && report is Failed ==> next == ActionView::ListRemote(Seq::empty())
            &&& last is ListLocal || last is ListRemote ==> next == ActionView::Finish(
                OutcomeView::Completed,
            )
        }),
{
    let earlier = inputs.drop_last();
    lemma_run_wf(fresh(kind, req), earlier);
    lemma_on_course(kind, req, earlier);
    let done = actions(fresh(kind, req), earlier);
    assert(actions(fresh(kind, req), inputs)[inputs.len() - 2] == done.last());
}

/// What a transfer shows is about its own task. While it runs it shows how much of how much was
/// moved; once the file was moved as a whole it shows all of it; and in the end it shows the
/// listing that came, under the path that was listed, or that none came.
pub proof fn transfers_show_their_own_progress(
    kind: PathKind,
    req: RequestView,
    inputs: Seq<Input>,
    input: Input,
)
    requires
        is_run(fresh(kind, req), inputs.push(input)),
        inputs.len() > 0,
    ensures
        ({
            let t = after(fresh(kind, req), inputs);
            let last = actions(fresh(kind, req), inputs).last();
            let (next, reply) = transfer_step(t, input.report, input.cancelled);
            &&& reply.emit matches Some(EventView::TaskProgress { task_id, done, total, speed })
                ==> {
                &&& task_id == req.task_id
                &&& total == next.total
                &&& done == next.done || (done == total && input.report is Done)
            }
            &&& input.report is Done && (last is Close || last is Store || last is Supply
                || last is Abort) ==> (reply.emit matches Some(
                EventView::TaskProgress { task_id, done, total, speed },
            ) && (total > 0 ==> done == total) && (total == 0 && last is Close ==> done == t.done)
                && speed == 0)
            &&& match last {
                ActionView::ListLocal(path) => match input.report {
                    ReportView::Entries(entries) => reply.emit == Some(
                        EventView::LocalListing { path, entries },
                    ),
                    ReportView::Failed(text) => reply.emit == Some(
                        EventView::LogLine {
                            dir: LogDir::Error,
                            text: "刷新本地目录失败："@ + text,
                        },
                    ),
                    _ => true,
                },
                ActionView::ListRemote(path) => match input.report {
                    ReportView::Entries(entries) => reply.emit == Some(
                        EventView::Listing { path, entries },
                    ),
                    ReportView::Failed(text) => reply.emit == Some(
                        EventView::LogLine {
                            dir: LogDir::Error,
                            text: "刷新远程目录失败："@ + text,
                        },
                    ),
                    _ => true,
                },
                _ => reply.emit.is_some() ==> reply.emit.unwrap() is TaskProgress,
            }
        }),
{
    let all = inputs.push(input);
    assert(all.drop_last() =~= inputs);
    assert(all.last() == input);
    lemma_run_wf(fresh(kind, req), inputs);
    lemma_on_course(kind, req, inputs);
}

/// How large the file is comes from the request, where it tells, or else from the server for a
/// download and from the file system for an upload; nothing else changes it.
pub proof fn sizes_come_from_where_the_file_is(
    kind: PathKind,
    req: RequestView,
    inputs: Seq<Input>,
    input: Input,
)
    requires
        is_run(fresh(kind, req), inputs.push(input)),
    ensures
        ({
            let t = after(fresh(kind, req), inputs);
            let (next, reply) = transfer_step(t, input.report, input.cancelled);
            &&& input.report matches ReportView::Size(n) ==> next.total == n
            &&& req.size == 0 ==> (input.report matches ReportView::Opened { len, now }
                ==> next.total == match len {
                Some(n) => n,
                None => 0,
            })
            &&& req.size > 0 && (reply.action is Create || reply.action is Store) ==> next.total
                == req.size
            &&& !(reply.action is Create || reply.action is Store) ==> next.total == t.total
        }),
{
    let all = inputs.push(input);
    assert(all.drop_last() =~= inputs);
    assert(all.last() == input);
    lemma_run_wf(fresh(kind, req), inputs);
    lemma_on_course(kind, req, inputs);
    lemma_asks_unknown_sizes(kind, req, inputs);
}

/// Only where the request does not tell the size is the server asked for it.
proof fn lemma_asks_unknown_sizes(kind: PathKind, req: RequestView, inputs: Seq<Input>)
    requires
        is_run(fresh(kind, req), inputs),
    ensures
        after(fresh(kind, req), inputs).phase == Phase::Sizing ==> req.size == 0,
    decreases inputs.len(),
{
    if inputs.len() > 0 {
        lemma_asks_unknown_sizes(kind, req, inputs.drop_last());
        lemma_run_wf(fresh(kind, req), inputs.drop_last());
    }
}

/// A speed is the bytes moved per second, rounded down.
pub proof fn speeds_are_per_second(bytes: int, ms: int)
    requires
        0 <= bytes,
        1 <= ms <= u64::MAX,
    ensures
        speed(bytes, ms) * ms <= 1000 * bytes < (speed(bytes, ms) + 1) * ms,
{
    let q = bytes * 1000 / ms;
    assert(q * ms <= bytes * 1000 < (q + 1) * ms) by (nonlinear_arith)
        requires
            q == bytes * 1000 / ms,
            ms > 0,
    ;
}

/// Every action can be answered: until it is over, a transfer waits for the success and for the
/// failure of what it did last. Only a data connection that it broke off itself can end badly
/// alone, for a download.
pub proof fn answers_are_awaited(
    kind: PathKind,
    req: RequestView,
    inputs: Seq<Input>,
    text: Seq<char>,
)
    requires
        is_run(fresh(kind, req), inputs),
    ensures
        ({
            let t = after(fresh(kind, req), inputs);
            let done = actions(fresh(kind, req), inputs);
            &&& done.len() == inputs.len()
            &&& done.len() == 0 ==> t.expects(ReportView::Begin)
            &&& done.len() > 0 && !(done.last() is Finish) ==> t.expects(ReportView::Failed(text))
            &&& done.len() > 0 && (done.last() is Connect || done.last() is Enter
                || done.last() is Retrieve || done.last() is Store || done.last() is Supply
                || done.last() is Close || is_removal(done.last())) ==> t.expects(ReportView::Done)
            &&& done.len() > 0 && (done.last() is Store || done.last() is Supply) ==> t.expects(
                ReportView::Wanted,
            )
            &&& forall|n: u64, now: u128| #![auto]
                done.len() > 0 && done.last() is Read ==> t.expects(ReportView::Bytes { n, now })
        }),
{
    lemma_on_course(kind, req, inputs);
    lemma_run_wf(fresh(kind, req), inputs);
}

/// A transfer is shown as running, with nothing moved yet, before anything else, and as ended in the
/// end; the queue is then told that its place is free.
pub proof fn transfers_are_shown_from_first_to_last(
    req: TransferRequest,
    first: FtpEvent,
    task_id: u64,
    outcome: Outcome,
    last: (FtpEvent, QueueCommand),
)
    requires
        call_ensures(first_event, (&req,), first),
        call_ensures(last_event, (task_id, outcome), last),
    ensures
        first.deep_view() == (EventView::TaskProgress {
            task_id: req.task_id,
            done: 0,
            total: req.size,
            speed: 0,
        }),
        last.0.deep_view() == (EventView::TaskFinished { task_id, outcome: outcome.deep_view() }),
        last.1.deep_view() == QueueCommandView::TaskDone(task_id),
{
}

/// A transfer begins by making a connection, unless its flag is set before.
pub proof fn transfers_begin_by_connecting(kind: PathKind, req: RequestView, inputs: Seq<Input>)
    requires
        is_run(fresh(kind, req), inputs),
        inputs.len() > 0,
    ensures
        actions(fresh(kind, req), inputs)[0] == if inputs[0].cancelled {
            ActionView::Finish(OutcomeView::Canceled)
        } else {
            ActionView::Connect
        },
    decreases inputs.len(),
{
    let earlier = inputs.drop_last();
    lemma_on_course(kind, req, earlier);
    if inputs.len() > 1 {
        transfers_begin_by_connecting(kind, req, earlier);
        assert(actions(fresh(kind, req), inputs)[0] == actions(fresh(kind, req), earlier)[0]);
    } else {
        assert(after(fresh(kind, req), earlier) == fresh(kind, req));
    }
}

/// The clock starts with the file: the first piece is reported where it was moved a tenth of a
/// second or more after the file was created or opened, and at the speed since then.
pub proof fn progress_is_timed_from_the_start(
    t: TransferView,
    len: Option<u64>,
    n: u64,
    start: u128,
    now: u128,
)
    requires
        t.wf(),
        t.done == 0,
        t.phase == Phase::Creating && t.req.direction == Direction::Download || t.phase
            == Phase::OpeningLocal && t.req.direction == Direction::Upload,
        0 < n,
        start <= now,
        (now - start) / 1_000_000 <= u64::MAX,
        n * 1000 <= u64::MAX,
    ensures
        ({
            let run = if t.req.direction == Direction::Download {
                seq![
                    Input { report: ReportView::Created { now: start }, cancelled: false },
                    Input { report: ReportView::Done, cancelled: false },
                    Input { report: ReportView::Bytes { n, now: start }, cancelled: false },
                ]
            } else {
                seq![
                    Input { report: ReportView::Opened { len, now: start }, cancelled: false },
                    Input { report: ReportView::Wanted, cancelled: false },
                ]
            };
            let last = if t.req.direction == Direction::Download {
                ReportView::Written { now }
            } else {
                ReportView::Bytes { n, now }
            };
            let emit = transfer_step(after(t, run), last, false).1.emit;
            &&& after(t, run).expects(last)
            &&& now - start < 100_000_000 ==> emit.is_none()
            &&& now - start >= 100_000_000 ==> (emit matches Some(
                EventView::TaskProgress { task_id, done, total, speed },
            ) && done == n && speed == n * 1000 / ((now - start) / 1_000_000))
        }),
{
    reveal_with_fuel(after, 4);
    let one = Input { report: ReportView::Created { now: start }, cancelled: false };
    let two = Input { report: ReportView::Done, cancelled: false };
    let three = Input { report: ReportView::Bytes { n, now: start }, cancelled: false };
    let opened = Input { report: ReportView::Opened { len, now: start }, cancelled: false };
    let wanted = Input { report: ReportView::Wanted, cancelled: false };
    assert(seq![one, two, three].drop_last() =~= seq![one, two]);
    assert(seq![one, two].drop_last() =~= seq![one]);
    assert(seq![one].drop_last() =~= Seq::<Input>::empty());
    assert(seq![opened, wanted].drop_last() =~= seq![opened]);
    assert(seq![opened].drop_last() =~= Seq::<Input>::empty());
    let piece = n * 1000 / ((now - start) / 1_000_000);
    if now - start >= 100_000_000 {
        assert(0 <= piece <= n * 1000) by (nonlinear_arith)
            requires
                piece == n * 1000 / ((now - start) / 1_000_000),
                (now - start) / 1_000_000 >= 1,
                n >= 0,
        ;
    }
}

} // verus!

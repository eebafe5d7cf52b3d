//! The state of the window, how the workers' events change it, and what the user's actions ask
//! the workers to do.

use vstd::prelude::*;

use crate::format::{fmt_size, fmt_time};
use crate::ftp::types::{
    join_remote, parent_remote, CommandView, ConfigView, ConnectConfig, Encoding, EntryView,
    EventView, FileEntry, FtpCommand, FtpEvent, LocalCommandView, LocalFsCommand, LogDir, Outcome,
    OutcomeView, PassiveMode, TlsMode,
};
use crate::local::{self, PathKind};
use crate::queue::{Direction, RequestView, TransferRequest};
use crate::store::env::port_or_default;
use crate::text::{chars_of, appended, push_decimal, push_text, same_str, string_of, trim};
use crate::worker::connecting_line;

verus! {

/// How many lines the log keeps.
pub const LOG_MAX: usize = 500;

/// A row of a file panel.
#[derive(Debug)]
pub struct FileRow {
    pub name: String,
    pub is_dir: bool,
    pub size_str: String,
    pub modified_str: String,
    pub perms: String,
}

/// What a [`FileRow`] says.
#[verifier::ext_equal]
pub struct FileRowView {
    pub name: Seq<char>,
    pub is_dir: bool,
    pub size_str: Seq<char>,
    pub modified_str: Seq<char>,
    pub perms: Seq<char>,
}

impl DeepView for FileRow {
    type V = FileRowView;

    open spec fn deep_view(&self) -> FileRowView {
        FileRowView {
            name: self.name@,
            is_dir: self.is_dir,
            size_str: self.size_str@,
            modified_str: self.modified_str@,
            perms: self.perms@,
        }
    }
}

/// A row of the queue panel. The bar shows `part` of `whole`.
#[derive(Debug)]
pub struct TaskRow {
    pub task_id: i32,
    pub name: String,
    pub direction: String,
    pub size_str: String,
    pub part: u64,
    pub whole: u64,
    pub progress_str: String,
    pub speed_str: String,
    pub status: String,
}

/// What a [`TaskRow`] says.
#[verifier::ext_equal]
pub struct TaskRowView {
    pub task_id: i32,
    pub name: Seq<char>,
    pub direction: Seq<char>,
    pub size_str: Seq<char>,
    pub part: u64,
    pub whole: u64,
    pub progress_str: Seq<char>,
    pub speed_str: Seq<char>,
    pub status: Seq<char>,
}

impl DeepView for TaskRow {
    type V = TaskRowView;

    open spec fn deep_view(&self) -> TaskRowView {
        TaskRowView {
            task_id: self.task_id,
            name: self.name@,
            direction: self.direction@,
            size_str: self.size_str@,
            part: self.part,
            whole: self.whole,
            progress_str: self.progress_str@,
            speed_str: self.speed_str@,
            status: self.status@,
        }
    }
}

impl Clone for TaskRow {
    fn clone(&self) -> (r: Self)
        ensures
            r.deep_view() == self.deep_view(),
    {
        TaskRow {
            task_id: self.task_id,
            name: self.name.clone(),
            direction: self.direction.clone(),
            size_str: self.size_str.clone(),
            part: self.part,
            whole: self.whole,
            progress_str: self.progress_str.clone(),
            speed_str: self.speed_str.clone(),
            status: self.status.clone(),
        }
    }
}

/// What the window asks for: a command to one of the workers, or an event to be shown in its
/// turn.
#[derive(Debug)]
pub enum AppEffect {
    Ftp(FtpCommand),
    Local(LocalFsCommand),
    Emit(FtpEvent),
}

/// What an [`AppEffect`] says.
#[verifier::ext_equal]
pub enum AppEffectView {
    Ftp(CommandView),
    Local(LocalCommandView),
    Emit(EventView),
}

impl DeepView for AppEffect {
    type V = AppEffectView;

    open spec fn deep_view(&self) -> AppEffectView {
        match self {
            AppEffect::Ftp(cmd) => AppEffectView::Ftp(cmd.deep_view()),
            AppEffect::Local(cmd) => AppEffectView::Local(cmd.deep_view()),
            AppEffect::Emit(ev) => AppEffectView::Emit(ev.deep_view()),
        }
    }
}

/// The window.
pub struct App {
    kind: PathKind,
    connected: bool,
    status_text: String,
    remote_path: String,
    remote_files: Vec<FileRow>,
    local_path: String,
    local_files: Vec<FileRow>,
    log_lines: Vec<String>,
    tasks: Vec<TaskRow>,
    next_task_id: u64,
}

/// The kind of local paths, what the window shows, and the id that the next transfer gets. The
/// newest line of the log comes first.
#[verifier::ext_equal]
pub struct AppView {
    pub kind: PathKind,
    pub connected: bool,
    pub status_text: Seq<char>,
    pub remote_path: Seq<char>,
    pub remote_files: Seq<FileRowView>,
    pub local_path: Seq<char>,
    pub local_files: Seq<FileRowView>,
    pub log_lines: Seq<Seq<char>>,
    pub tasks: Seq<TaskRowView>,
    pub next_task_id: u64,
}

impl View for App {
    type V = AppView;

    closed spec fn view(&self) -> AppView {
        AppView {
            kind: self.kind,
            connected: self.connected,
            status_text: self.status_text@,
            remote_path: self.remote_path@,
            remote_files: self.remote_files.deep_view(),
            local_path: self.local_path@,
            local_files: self.local_files.deep_view(),
            log_lines: self.log_lines.deep_view(),
            tasks: self.tasks.deep_view(),
            next_task_id: self.next_task_id,
        }
    }
}

impl AppView {
    /// Whether the log holds no more than it keeps.
    pub open spec fn wf(self) -> bool {
        self.log_lines.len() <= LOG_MAX
    }
}

/// A line of the log.
pub open spec fn log_line(dir: LogDir, text: Seq<char>) -> Seq<char> {
    "["@ + crate::ftp::types::log_tag(dir) + "] "@ + text
}

/// The log with one more line: it comes first, and the oldest goes where there are too many.
pub open spec fn logged(lines: Seq<Seq<char>>, dir: LogDir, text: Seq<char>) -> Seq<Seq<char>> {
    let all = seq![log_line(dir, text)] + lines;
    if all.len() > LOG_MAX {
        all.drop_last()
    } else {
        all
    }
}

/// Whether the row shows the entry.
pub open spec fn shows_entry(e: EntryView, row: FileRowView) -> bool {
    &&& row.name == e.name
    &&& row.is_dir == e.is_dir
    &&& row.size_str == crate::format::size_text(e.size)
    &&& crate::format::shows_time(e.modified, row.modified_str)
    &&& e.modified matches Some(at) ==> crate::format::local_clock_can_show(at, row.modified_str)
    &&& row.perms == match e.perms {
        Some(perms) => perms,
        None => Seq::empty(),
    }
}

/// Whether the rows show the entries, in order.
pub open spec fn shows_entries(entries: Seq<EntryView>, rows: Seq<FileRowView>) -> bool {
    &&& rows.len() == entries.len()
    &&& forall|i: int| 0 <= i < rows.len() ==> shows_entry(entries[i], #[trigger] rows[i])
}

/// Whether the row is that of the task.
pub open spec fn is_row_of(row: TaskRowView, task_id: u64) -> bool {
    row.task_id >= 0 && row.task_id == task_id
}

/// The first row of the task.
pub open spec fn first_row(tasks: Seq<TaskRowView>, task_id: u64) -> Option<int>
    decreases tasks.len(),
{
    if tasks.len() == 0 {
        None
    } else if is_row_of(tasks[0], task_id) {
        Some(0)
    } else {
        match first_row(tasks.drop_first(), task_id) {
            Some(i) => Some(i + 1),
            None => None,
        }
    }
}

/// The share of a file that was moved, in words: in percent, or in bytes where the size is not
/// known or the percentage cannot be computed.
pub open spec fn progress_text(done: u64, total: u64) -> Seq<char> {
    if total > 0 && done * 100 <= u64::MAX {
        crate::text::decimal(done * 100 / total as int) + "%"@
    } else {
        crate::format::size_text(done)
    }
}

/// A speed in words.
pub open spec fn speed_text(speed: u64) -> Seq<char> {
    if speed > 0 {
        crate::format::size_text(speed) + "/s"@
    } else {
        "—"@
    }
}

/// The row of a task that is under way.
pub open spec fn moving_row(row: TaskRowView, done: u64, total: u64, speed: u64) -> TaskRowView {
    TaskRowView {
        part: if total == 0 {
            0
        } else if done < total {
            done
        } else {
            total
        },
        whole: if total == 0 {
            1
        } else {
            total
        },
        progress_str: progress_text(done, total),
        speed_str: speed_text(speed),
        status: "传输中"@,
        ..row
    }
}

/// The row of a task that has ended.
pub open spec fn ended_row(row: TaskRowView, outcome: OutcomeView) -> TaskRowView {
    match outcome {
        OutcomeView::Completed => TaskRowView {
            part: 1,
            whole: 1,
            progress_str: "100%"@,
            speed_str: "—"@,
            status: "已完成"@,
            ..row
        },
        OutcomeView::Failed(text) => TaskRowView { speed_str: "—"@, status: "失败"@, ..row },
        OutcomeView::Canceled => TaskRowView { speed_str: "—"@, status: "已取消"@, ..row },
    }
}

/// The rows once a task has moved on.
pub open spec fn moving_rows(
    tasks: Seq<TaskRowView>,
    task_id: u64,
    done: u64,
    total: u64,
    speed: u64,
) -> Seq<TaskRowView> {
    match first_row(tasks, task_id) {
        Some(i) => tasks.update(i, moving_row(tasks[i], done, total, speed)),
        None => tasks,
    }
}

/// The rows once a task has ended.
pub open spec fn ended_rows(
    tasks: Seq<TaskRowView>,
    task_id: u64,
    outcome: OutcomeView,
) -> Seq<TaskRowView> {
    match first_row(tasks, task_id) {
        Some(i) => tasks.update(i, ended_row(tasks[i], outcome)),
        None => tasks,
    }
}

/// The window after an event. What the rows of a listing show of a time is not fixed: it depends
/// on the local clock.
pub open spec fn after_event(w: AppView, ev: EventView, rows: Seq<FileRowView>) -> AppView {
    match ev {
        EventView::Connected => AppView {
            connected: true,
            status_text: "已连接"@,
            log_lines: logged(w.log_lines, LogDir::Info, "连接就绪"@),
            ..w
        },
        EventView::Listing { path, entries } => AppView {
            remote_path: path,
            remote_files: rows,
            log_lines: logged(
                w.log_lines,
                LogDir::Info,
                "远程目录已更新（"@ + crate::text::decimal(entries.len() as int) + " 项）："@
                    + path,
            ),
            ..w
        },
        EventView::LocalListing { path, entries } => AppView {
            local_path: path,
            local_files: rows,
            ..w
        },
        EventView::LogLine { dir, text } => AppView {
            log_lines: logged(w.log_lines, dir, text),
            ..w
        },
        EventView::TaskProgress { task_id, done, total, speed } => AppView {
            tasks: moving_rows(w.tasks, task_id, done, total, speed),
            ..w
        },
        EventView::TaskFinished { task_id, outcome } => AppView {
            tasks: ended_rows(w.tasks, task_id, outcome),
            ..w
        },
        EventView::Disconnected { reason } => AppView {
            connected: false,
            status_text: "未连接"@,
            log_lines: logged(w.log_lines, LogDir::Info, "连接已断开："@ + reason),
            ..w
        },
        EventView::Error { context, message } => AppView {
            status_text: "错误："@ + context,
            log_lines: logged(w.log_lines, LogDir::Error, context + "："@ + message),
            ..w
        },
    }
}

/// The entries that an event lists.
pub open spec fn listed_entries(ev: EventView) -> Seq<EntryView> {
    match ev {
        EventView::Listing { path, entries } => entries,
        EventView::LocalListing { path, entries } => entries,
        _ => Seq::empty(),
    }
}

/// The row that shows an entry.
fn row_of(e: &FileEntry) -> (r: FileRow)
    ensures
        shows_entry(e.deep_view(), r.deep_view()),
{
    let perms = match &e.perms {
        Some(perms) => perms.clone(),
        None => String::new(),
    };
    assert(e.perms.is_none() ==> perms@ =~= Seq::<char>::empty());
    FileRow {
        name: e.name.clone(),
        is_dir: e.is_dir,
        size_str: fmt_size(e.size),
        modified_str: fmt_time(e.modified),
        perms,
    }
}

/// The rows that show a listing.
pub fn rows_model(entries: &[FileEntry]) -> (rows: Vec<FileRow>)
    ensures
        shows_entries(entries.deep_view(), rows.deep_view()),
{
    let mut rows: Vec<FileRow> = Vec::new();
    for i in 0..entries.len()
        invariant
            rows@.len() == i,
            forall|k: int|
                0 <= k < i ==> shows_entry(
                    entries.deep_view()[k],
                    #[trigger] rows.deep_view()[k],
                ),
    {
        let ghost before = rows.deep_view();
        assert(entries.deep_view()[i as int] == entries@[i as int].deep_view());
        let row = row_of(&entries[i]);
        rows.push(row);
        assert(rows.deep_view() =~= before.push(row.deep_view()));
    }
    rows
}

/// The share of a file that was moved, in words.
fn progress_str(done: u64, total: u64) -> (r: String)
    ensures
        r@ == progress_text(done, total),
{
    if total > 0 && done <= u64::MAX / 100 {
        let mut out = String::new();
        push_decimal(&mut out, done * 100 / total);
        push_text(&mut out, "%");
        assert(out@ =~= progress_text(done, total));
        out
    } else {
        fmt_size(done)
    }
}

/// A speed in words.
fn speed_str(speed: u64) -> (r: String)
    ensures
        r@ == speed_text(speed),
{
    if speed > 0 {
        appended(fmt_size(speed).as_str(), "/s")
    } else {
        "—".to_string()
    }
}

proof fn lemma_first_row(tasks: Seq<TaskRowView>, task_id: u64)
    ensures
        match first_row(tasks, task_id) {
            Some(i) => 0 <= i < tasks.len() && is_row_of(tasks[i], task_id) && forall|j: int|
                0 <= j < i ==> !is_row_of(#[trigger] tasks[j], task_id),
            None => forall|j: int|
                0 <= j < tasks.len() ==> !is_row_of(#[trigger] tasks[j], task_id),
        },
    decreases tasks.len(),
{
    if tasks.len() > 0 && !is_row_of(tasks[0], task_id) {
        let rest = tasks.drop_first();
        lemma_first_row(rest, task_id);
        match first_row(rest, task_id) {
            Some(i) => {
                assert(rest[i] == tasks[i + 1]);
                assert forall|j: int| 0 <= j < i + 1 implies !is_row_of(
                    #[trigger] tasks[j],
                    task_id,
                ) by {
                    if j > 0 {
                        assert(tasks[j] == rest[j - 1]);
                    }
                }
            },
            None => {
                assert forall|j: int| 0 <= j < tasks.len() implies !is_row_of(
                    #[trigger] tasks[j],
                    task_id,
                ) by {
                    if j > 0 {
                        assert(tasks[j] == rest[j - 1]);
                    }
                }
            },
        }
    }
}

impl App {
    /// A window without a connection and with nothing to show.
    pub fn new(kind: PathKind) -> (r: Self)
        ensures
            r@ == (AppView {
                kind,
                connected: false,
                status_text: Seq::empty(),
                remote_path: Seq::empty(),
                remote_files: Seq::empty(),
                local_path: Seq::empty(),
                local_files: Seq::empty(),
                log_lines: Seq::empty(),
                tasks: Seq::empty(),
                next_task_id: 1,
            }),
            r@.wf(),
    {
        let r = App {
            kind,
            connected: false,
            status_text: String::new(),
            remote_path: String::new(),
            remote_files: Vec::new(),
            local_path: String::new(),
            local_files: Vec::new(),
            log_lines: Vec::new(),
            tasks: Vec::new(),
            next_task_id: 1,
        };
        assert(r@.remote_files =~= Seq::<FileRowView>::empty());
        assert(r@.local_files =~= Seq::<FileRowView>::empty());
        assert(r@.log_lines =~= Seq::<Seq<char>>::empty());
        assert(r@.tasks =~= Seq::<TaskRowView>::empty());
        r
    }

    /// Whether a server is connected.
    pub fn connected(&self) -> (r: bool)
        ensures
            r == self@.connected,
    {
        self.connected
    }

    /// The text of the status bar.
    pub fn status_text(&self) -> (r: &str)
        ensures
            r@ == self@.status_text,
    {
        self.status_text.as_str()
    }

    /// The remote directory that is shown.
    pub fn remote_path(&self) -> (r: &str)
        ensures
            r@ == self@.remote_path,
    {
        self.remote_path.as_str()
    }

    /// The local directory that is shown.
    pub fn local_path(&self) -> (r: &str)
        ensures
            r@ == self@.local_path,
    {
        self.local_path.as_str()
    }

    /// The rows of the remote panel.
    pub fn remote_files(&self) -> (r: &Vec<FileRow>)
        ensures
            r.deep_view() == self@.remote_files,
    {
        &self.remote_files
    }

    /// The rows of the local panel.
    pub fn local_files(&self) -> (r: &Vec<FileRow>)
        ensures
            r.deep_view() == self@.local_files,
    {
        &self.local_files
    }

    /// The lines of the log, the newest first.
    pub fn log_lines(&self) -> (r: &Vec<String>)
        ensures
            r.deep_view() == self@.log_lines,
    {
        &self.log_lines
    }

    /// The rows of the queue panel.
    pub fn tasks(&self) -> (r: &Vec<TaskRow>)
        ensures
            r.deep_view() == self@.tasks,
    {
        &self.tasks
    }

    fn append_log(&mut self, dir: LogDir, text: &str)
        requires
            old(self)@.wf(),
        ensures
            final(self)@ == (AppView {
                log_lines: logged(old(self)@.log_lines, dir, text@),
                ..old(self)@
            }),
            final(self)@.wf(),
    {
        let ghost before = self.log_lines.deep_view();
        let mut line = appended("[", dir.tag());
        push_text(&mut line, "] ");
        push_text(&mut line, text);
        assert(line@ =~= log_line(dir, text@));
        self.log_lines.insert(0, line);
        assert(self.log_lines.deep_view() =~= seq![log_line(dir, text@)] + before);
        if self.log_lines.len() > LOG_MAX {
            self.log_lines.pop();
        }
        assert(self.log_lines.deep_view() =~= logged(before, dir, text@));
    }

    /// The position of the task's first row.
    fn find_row(&self, task_id: u64) -> (r: Option<usize>)
        ensures
            match r {
                Some(i) => first_row(self@.tasks, task_id) == Some(i as int) && i
                    < self.tasks@.len(),
                None => first_row(self@.tasks, task_id).is_none(),
            },
    {
        proof {
            lemma_first_row(self@.tasks, task_id);
        }
        for i in 0..self.tasks.len()
            invariant
                forall|j: int| 0 <= j < i ==> !is_row_of(#[trigger] self@.tasks[j], task_id),
                match first_row(self@.tasks, task_id) {
                    Some(i) => 0 <= i < self@.tasks.len() && is_row_of(self@.tasks[i], task_id)
                        && forall|j: int|
                        0 <= j < i ==> !is_row_of(#[trigger] self@.tasks[j], task_id),
                    None => forall|j: int|
                        0 <= j < self@.tasks.len() ==> !is_row_of(
                            #[trigger] self@.tasks[j],
                            task_id,
                        ),
                },
        {
            assert(self@.tasks[i as int] == self.tasks@[i as int].deep_view());
            let id = self.tasks[i].task_id;
            if id >= 0 && id as u64 == task_id {
                return Some(i);
            }
        }
        None
    }

    fn update_task_row(&mut self, task_id: u64, done: u64, total: u64, speed: u64)
        ensures
            final(self)@ == (AppView {
                tasks: moving_rows(old(self)@.tasks, task_id, done, total, speed),
                ..old(self)@
            }),
    {
        let ghost before = self@.tasks;
        match self.find_row(task_id) {
            Some(i) => {
                let mut row = self.tasks[i].clone();
                row.part = if total == 0 {
                    0
                } else if done < total {
                    done
                } else {
                    total
                };
                row.whole = if total == 0 {
                    1
                } else {
                    total
                };
                row.progress_str = progress_str(done, total);
                row.speed_str = speed_str(speed);
                row.status = "传输中".to_string();
                self.tasks[i] = row;
                assert(self.tasks.deep_view() =~= before.update(
                    i as int,
                    moving_row(before[i as int], done, total, speed),
                ));
            },
            None => {},
        }
    }

    fn finish_task_row(&mut self, task_id: u64, outcome: &Outcome)
        ensures
            final(self)@ == (AppView {
                tasks: ended_rows(old(self)@.tasks, task_id, outcome.deep_view()),
                ..old(self)@
            }),
    {
        let ghost before = self@.tasks;
        match self.find_row(task_id) {
            Some(i) => {
                let mut row = self.tasks[i].clone();
                match outcome {
                    Outcome::Completed => {
                        row.part = 1;
                        row.whole = 1;
                        row.progress_str = "100%".to_string();
                        row.speed_str = "—".to_string();
                        row.status = "已完成".to_string();
                    },
                    Outcome::Failed(_) => {
                        row.speed_str = "—".to_string();
                        row.status = "失败".to_string();
                    },
                    Outcome::Canceled => {
                        row.speed_str = "—".to_string();
                        row.status = "已取消".to_string();
                    },
                }
                self.tasks[i] = row;
                assert(self.tasks.deep_view() =~= before.update(
                    i as int,
                    ended_row(before[i as int], outcome.deep_view()),
                ));
            },
            None => {},
        }
    }

    /// Shows an event.
    pub fn apply_event(&mut self, ev: FtpEvent)
        requires
            old(self)@.wf(),
        ensures
            exists|rows: Seq<FileRowView>|
                shows_entries(listed_entries(ev.deep_view()), rows) && final(self)@
                    == #[trigger] after_event(old(self)@, ev.deep_view(), rows),
            final(self)@.wf(),
    {
        let ghost before = self@;
        let ghost mut shown = Seq::<FileRowView>::empty();
        match ev {
            FtpEvent::Connected => {
                self.connected = true;
                self.status_text = "已连接".to_string();
                self.append_log(LogDir::Info, "连接就绪");
            },
            FtpEvent::Listing { path, entries } => {
                let rows = rows_model(entries.as_slice());
                proof {
                    shown = rows.deep_view();
                }
                let mut text = "远程目录已更新（".to_string();
                push_decimal(&mut text, entries.len() as u64);
                push_text(&mut text, " 项）：");
                push_text(&mut text, path.as_str());
                self.remote_path = path;
                self.remote_files = rows;
                self.append_log(LogDir::Info, text.as_str());
            },
            FtpEvent::LocalListing { path, entries } => {
                let rows = rows_model(entries.as_slice());
                proof {
                    shown = rows.deep_view();
                }
                self.local_path = path;
                self.local_files = rows;
            },
            FtpEvent::LogLine { dir, text } => self.append_log(dir, text.as_str()),
            FtpEvent::TaskProgress { task_id, done, total, speed } => self.update_task_row(
                task_id,
                done,
                total,
                speed,
            ),
            FtpEvent::TaskFinished { task_id, outcome } => self.finish_task_row(task_id, &outcome),
            FtpEvent::Disconnected { reason } => {
                self.connected = false;
                self.status_text = "未连接".to_string();
                self.append_log(LogDir::Info, appended("连接已断开：", reason.as_str()).as_str());
            },
            FtpEvent::Error { context, message } => {
                let mut text = appended(context.as_str(), "：");
                push_text(&mut text, message.as_str());
                self.append_log(LogDir::Error, text.as_str());
                self.status_text = appended("错误：", context.as_str());
            },
        }
        assert(self@ == after_event(before, ev.deep_view(), shown));
    }
}

/// Whether the name can be given to a file.
pub open spec fn is_target(name: Seq<char>) -> bool {
    let t = crate::text::trimmed(name);
    t.len() > 0 && t != "."@ && t != ".."@
}

/// A line for the log, as an effect.
pub open spec fn says(dir: LogDir, text: Seq<char>) -> AppEffectView {
    AppEffectView::Emit(EventView::LogLine { dir, text })
}

/// The effect, where there is a directory and the names will do. Without a directory the log says
/// so.
pub open spec fn guarded(
    base: Seq<char>,
    names_will_do: bool,
    effect: AppEffectView,
) -> Seq<AppEffectView> {
    if base.len() == 0 {
        seq![says(LogDir::Error, "尚未就绪：请先浏览到有效目录"@)]
    } else if names_will_do {
        seq![effect]
    } else {
        Seq::empty()
    }
}

/// The id that follows `id`; after the last comes 0.
pub open spec fn id_after(id: u64) -> u64 {
    if id == u64::MAX {
        0
    } else {
        (id + 1) as u64
    }
}

/// The row of a transfer that waits.
pub open spec fn waiting_row(task_id: u64, direction: Direction, name: Seq<char>) -> TaskRowView {
    TaskRowView {
        task_id: if task_id <= i32::MAX {
            task_id as i32
        } else {
            0
        },
        name,
        direction: match direction {
            Direction::Download => "↓ 下载"@,
            Direction::Upload => "↑ 上传"@,
        },
        size_str: "…"@,
        part: 0,
        whole: 1,
        progress_str: "0%"@,
        speed_str: "—"@,
        status: "等待"@,
    }
}

/// The window, and what it asks for, once a transfer was added to the queue.
pub open spec fn enqueued(
    w: AppView,
    direction: Direction,
    remote: Seq<char>,
    local: Seq<char>,
    name: Seq<char>,
) -> (AppView, Seq<AppEffectView>) {
    let req = RequestView { task_id: w.next_task_id, direction, remote, local, size: 0 };
    (
        AppView {
            tasks: w.tasks.push(waiting_row(w.next_task_id, direction, name)),
            next_task_id: id_after(w.next_task_id),
            ..w
        },
        seq![
            AppEffectView::Ftp(CommandView::EnqueueTransfers { tasks: seq![req] }),
            says(
                LogDir::Info,
                match direction {
                    Direction::Download => "已加入下载队列："@ + name,
                    Direction::Upload => "已加入上传队列："@ + name,
                },
            ),
        ],
    )
}

/// Whether the row shows a task that has ended.
pub open spec fn is_finished(row: TaskRowView) -> bool {
    row.status == "已完成"@ || row.status == "失败"@ || row.status == "已取消"@
}

/// The rows of the tasks that have not ended.
pub open spec fn unfinished(tasks: Seq<TaskRowView>) -> Seq<TaskRowView> {
    tasks.filter(|row: TaskRowView| !is_finished(row))
}

/// A directory that the environment names, and whether it is one.
pub struct Place {
    pub path: String,
    pub is_dir: bool,
}

/// What a [`Place`] says.
#[verifier::ext_equal]
pub struct PlaceView {
    pub path: Seq<char>,
    pub is_dir: bool,
}

impl DeepView for Place {
    type V = PlaceView;

    open spec fn deep_view(&self) -> PlaceView {
        PlaceView { path: self.path@, is_dir: self.is_dir }
    }
}

/// The local directory that is shown first: the user's, where there is one, or else the current
/// one.
pub open spec fn first_local_dir(
    profile: Option<PlaceView>,
    home: Option<PlaceView>,
    current: Option<Seq<char>>,
) -> Seq<char> {
    let named = match profile {
        Some(place) => Some(place),
        None => home,
    };
    match named {
        Some(place) => if place.is_dir {
            place.path
        } else {
            match current {
                Some(path) => path,
                None => "."@,
            }
        },
        None => match current {
            Some(path) => path,
            None => "."@,
        },
    }
}

/// `text` without the white space around it.
fn trimmed_text(text: &str) -> (r: String)
    ensures
        r@ == crate::text::trimmed(text@),
{
    string_of(trim(chars_of(text).as_slice()))
}

/// No effects.
fn nothing() -> (r: Vec<AppEffect>)
    ensures
        r.deep_view() == Seq::<AppEffectView>::empty(),
{
    let r: Vec<AppEffect> = Vec::new();
    assert(r.deep_view() =~= Seq::<AppEffectView>::empty());
    r
}

/// One effect.
fn only(effect: AppEffect) -> (r: Vec<AppEffect>)
    ensures
        r.deep_view() == seq![effect.deep_view()],
{
    let mut r: Vec<AppEffect> = Vec::new();
    r.push(effect);
    assert(r.deep_view() =~= seq![effect.deep_view()]);
    r
}

/// The effect, where there is a directory and the names will do.
fn guard(base: &str, names_will_do: bool, effect: AppEffect) -> (r: Vec<AppEffect>)
    ensures
        r.deep_view() == guarded(base@, names_will_do, effect.deep_view()),
{
    if base.is_empty() {
        only(log_effect(LogDir::Error, "尚未就绪：请先浏览到有效目录".to_string()))
    } else if names_will_do {
        only(effect)
    } else {
        nothing()
    }
}

/// A line for the log, as an effect.
fn log_effect(dir: LogDir, text: String) -> (r: AppEffect)
    ensures
        r.deep_view() == says(dir, text@),
{
    AppEffect::Emit(FtpEvent::LogLine { dir, text })
}

/// Whether the name can be given to a file.
fn valid_target(name: &str) -> (r: bool)
    ensures
        r == is_target(name@),
{
    let chars = chars_of(name);
    let name = trim(chars.as_slice());
    name.len() > 0 && !same_str(name, ".") && !same_str(name, "..")
}

/// Whether two texts are the same.
fn same_text(a: &str, b: &str) -> (r: bool)
    ensures
        r == (a@ == b@),
{
    same_str(chars_of(a).as_slice(), b)
}

impl App {
    /// Asks for a session.
    pub fn connect(&self, cfg: ConnectConfig) -> (r: Vec<AppEffect>)
        ensures
            r.deep_view() == seq![AppEffectView::Ftp(CommandView::Connect(cfg.deep_view()))],
    {
        only(AppEffect::Ftp(FtpCommand::Connect(cfg)))
    }

    /// Ends the session.
    pub fn disconnect(&self) -> (r: Vec<AppEffect>)
        ensures
            r.deep_view() == seq![AppEffectView::Ftp(CommandView::Quit)],
    {
        only(AppEffect::Ftp(FtpCommand::Quit))
    }

    /// Asks the control worker for a sign of life.
    pub fn ping(&self) -> (r: Vec<AppEffect>)
        ensures
            r.deep_view() == seq![AppEffectView::Ftp(CommandView::Ping)],
    {
        only(AppEffect::Ftp(FtpCommand::Ping))
    }

    /// Enters a remote directory.
    pub fn remote_navigate(&self, path: String) -> (r: Vec<AppEffect>)
        ensures
            r.deep_view() == seq![AppEffectView::Ftp(CommandView::Navigate { path: path@ })],
    {
        only(AppEffect::Ftp(FtpCommand::Navigate { path }))
    }

    /// Lists a remote directory.
    pub fn remote_refresh(&self, path: String) -> (r: Vec<AppEffect>)
        ensures
            r.deep_view() == seq![AppEffectView::Ftp(CommandView::List { path: path@ })],
    {
        only(AppEffect::Ftp(FtpCommand::List { path }))
    }

    /// Lists a local directory.
    pub fn local_list(&self, path: String) -> (r: Vec<AppEffect>)
        ensures
            r.deep_view() == seq![AppEffectView::Local(LocalCommandView::List { path: path@ })],
    {
        only(AppEffect::Local(LocalFsCommand::List { path }))
    }

    /// Puts a line into the log.
    pub fn log(&self, dir: LogDir, text: String) -> (r: Vec<AppEffect>)
        ensures
            r.deep_view() == seq![says(dir, text@)],
    {
        only(log_effect(dir, text))
    }

    /// Shows the first local directory: the user's, which the environment names, or else the
    /// current one.
    pub fn open_initial_local(
        &self,
        profile: Option<Place>,
        home: Option<Place>,
        current: Option<String>,
    ) -> (r: Vec<AppEffect>)
        ensures
            r.deep_view() == seq![
                AppEffectView::Local(
                    LocalCommandView::List {
                        path: first_local_dir(
                            profile.deep_view(),
                            home.deep_view(),
                            current.deep_view(),
                        ),
                    },
                ),
            ],
    {
        let named = match profile {
            Some(place) => Some(place),
            None => home,
        };
        let fallback = match current {
            Some(path) => path,
            None => ".".to_string(),
        };
        let start = match named {
            Some(place) => if place.is_dir {
                place.path
            } else {
                fallback
            },
            None => fallback,
        };
        self.local_list(start)
    }

    /// Adds a row and a request for a transfer.
    fn enqueue(&mut self, direction: Direction, remote: String, local: String, name: &str) -> (r: Vec<
        AppEffect,
    >)
        ensures
            (final(self)@, r.deep_view()) == enqueued(
                old(self)@,
                direction,
                remote@,
                local@,
                name@,
            ),
    {
        let ghost before = self@;
        let task_id = self.next_task_id;
        self.next_task_id = if task_id == u64::MAX {
            0
        } else {
            task_id + 1
        };
        let row = TaskRow {
            task_id: if task_id <= i32::MAX as u64 {
                task_id as i32
            } else {
                0
            },
            name: name.to_string(),
            direction: match direction {
                Direction::Download => "↓ 下载".to_string(),
                Direction::Upload => "↑ 上传".to_string(),
            },
            size_str: "…".to_string(),
            part: 0,
            whole: 1,
            progress_str: "0%".to_string(),
            speed_str: "—".to_string(),
            status: "等待".to_string(),
        };
        self.tasks.push(row);
        assert(self@.tasks =~= before.tasks.push(row.deep_view()));
        let mut tasks: Vec<TransferRequest> = Vec::new();
        tasks.push(TransferRequest { task_id, direction, remote, local, size: 0 });
        let ghost req = RequestView {
            task_id,
            direction,
            remote: remote@,
            local: local@,
            size: 0,
        };
        assert(tasks.deep_view() =~= seq![req]);
        let text = match direction {
            Direction::Download => appended("已加入下载队列：", name),
            Direction::Upload => appended("已加入上传队列：", name),
        };
        let mut effects = only(AppEffect::Ftp(FtpCommand::EnqueueTransfers { tasks }));
        let ghost first = effects.deep_view();
        effects.push(log_effect(LogDir::Info, text));
        assert(effects.deep_view() =~= first.push(says(LogDir::Info, text@)));
        assert(effects.deep_view() =~= enqueued(before, direction, remote@, local@, name@).1);
        effects
    }

    /// Fetches a file of a remote directory into the local directory that is shown.
    pub fn download_remote_file(&mut self, remote_dir: &str, name: &str) -> (r: Vec<AppEffect>)
        ensures
            (final(self)@, r.deep_view()) == enqueued(
                old(self)@,
                Direction::Download,
                crate::ftp::types::joined(remote_dir@, name@),
                crate::local::joined(old(self)@.kind, old(self)@.local_path, name@),
                name@,
            ),
    {
        let local = local::join(self.kind, self.local_path.as_str(), name);
        self.enqueue(Direction::Download, join_remote(remote_dir, name), local, name)
    }

    /// Sends a file of a local directory to the remote directory that is shown.
    pub fn upload_local_file(&mut self, local_dir: &str, name: &str) -> (r: Vec<AppEffect>)
        ensures
            (final(self)@, r.deep_view()) == enqueued(
                old(self)@,
                Direction::Upload,
                crate::ftp::types::joined(old(self)@.remote_path, name@),
                crate::local::joined(old(self)@.kind, local_dir@, name@),
                name@,
            ),
    {
        let remote = join_remote(self.remote_path.as_str(), name);
        self.enqueue(Direction::Upload, remote, local::join(self.kind, local_dir, name), name)
    }

    /// Cancels a task. A negative number names none.
    pub fn cancel_task(&self, task_id: i32) -> (r: Vec<AppEffect>)
        ensures
            r.deep_view() == seq![
                AppEffectView::Ftp(
                    CommandView::CancelTask {
                        task_id: if task_id >= 0 {
                            task_id as u64
                        } else {
                            u64::MAX
                        },
                    },
                ),
            ],
    {
        let task_id = if task_id >= 0 {
            task_id as u64
        } else {
            u64::MAX
        };
        only(AppEffect::Ftp(FtpCommand::CancelTask { task_id }))
    }

    /// Makes a remote directory.
    pub fn remote_mkdir(&self, base: &str, name: &str) -> (r: Vec<AppEffect>)
        ensures
            r.deep_view() == guarded(
                base@,
                is_target(name@),
                AppEffectView::Ftp(
                    CommandView::Mkdir { path: crate::ftp::types::joined(base@, name@) },
                ),
            ),
    {
        guard(
            base,
            valid_target(name),
            AppEffect::Ftp(FtpCommand::Mkdir { path: join_remote(base, name) }),
        )
    }

    /// Removes a remote file or directory.
    pub fn remote_delete(&self, base: &str, name: &str) -> (r: Vec<AppEffect>)
        ensures
            r.deep_view() == guarded(
                base@,
                is_target(name@),
                AppEffectView::Ftp(
                    CommandView::Delete {
                        paths: seq![crate::ftp::types::joined(base@, name@)],
                    },
                ),
            ),
    {
        let mut paths: Vec<String> = Vec::new();
        paths.push(join_remote(base, name));
        assert(paths.deep_view() =~= seq![crate::ftp::types::joined(base@, name@)]);
        guard(base, valid_target(name), AppEffect::Ftp(FtpCommand::Delete { paths }))
    }

    /// Renames a remote file or directory.
    pub fn remote_rename(&self, base: &str, from: &str, to: &str) -> (r: Vec<AppEffect>)
        ensures
            r.deep_view() == guarded(
                base@,
                is_target(from@) && is_target(to@) && from@ != to@,
                AppEffectView::Ftp(
                    CommandView::Rename {
                        from: crate::ftp::types::joined(base@, from@),
                        to: crate::ftp::types::joined(base@, to@),
                    },
                ),
            ),
    {
        guard(
            base,
            valid_target(from) && valid_target(to) && !same_text(from, to),
            AppEffect::Ftp(
                FtpCommand::Rename { from: join_remote(base, from), to: join_remote(base, to) },
            ),
        )
    }

    /// Makes a local directory.
    pub fn local_mkdir(&self, base: &str, name: &str) -> (r: Vec<AppEffect>)
        ensures
            r.deep_view() == guarded(
                base@,
                is_target(name@),
                AppEffectView::Local(
                    LocalCommandView::Mkdir {
                        path: crate::local::joined(self@.kind, base@, name@),
                    },
                ),
            ),
    {
        guard(
            base,
            valid_target(name),
            AppEffect::Local(LocalFsCommand::Mkdir { path: local::join(self.kind, base, name) }),
        )
    }

    /// Removes a local file or directory.
    pub fn local_delete(&self, base: &str, name: &str) -> (r: Vec<AppEffect>)
        ensures
            r.deep_view() == guarded(
                base@,
                is_target(name@),
                AppEffectView::Local(
                    LocalCommandView::Delete {
                        paths: seq![crate::local::joined(self@.kind, base@, name@)],
                    },
                ),
            ),
    {
        let mut paths: Vec<String> = Vec::new();
        paths.push(local::join(self.kind, base, name));
        assert(paths.deep_view() =~= seq![crate::local::joined(self@.kind, base@, name@)]);
        guard(base, valid_target(name), AppEffect::Local(LocalFsCommand::Delete { paths }))
    }

    /// Renames a local file or directory.
    pub fn local_rename(&self, base: &str, from: &str, to: &str) -> (r: Vec<AppEffect>)
        ensures
            r.deep_view() == guarded(
                base@,
                is_target(from@) && is_target(to@) && from@ != to@,
                AppEffectView::Local(
                    LocalCommandView::Rename {
                        from: crate::local::joined(self@.kind, base@, from@),
                        to: crate::local::joined(self@.kind, base@, to@),
                    },
                ),
            ),
    {
        guard(
            base,
            valid_target(from) && valid_target(to) && !same_text(from, to),
            AppEffect::Local(
                LocalFsCommand::Rename {
                    from: local::join(self.kind, base, from),
                    to: local::join(self.kind, base, to),
                },
            ),
        )
    }

    /// Takes the rows of the tasks that have ended out of the queue panel.
    pub fn clear_finished_tasks(&mut self)
        ensures
            final(self)@ == (AppView { tasks: unfinished(old(self)@.tasks), ..old(self)@ }),
    {
        let ghost before = self@;
        let ghost keep = |row: TaskRowView| !is_finished(row);
        let mut i: usize = self.tasks.len();
        assert(before.tasks.skip(i as int) =~= Seq::<TaskRowView>::empty());
        assert(before.tasks.take(i as int) =~= before.tasks);
        assert(before.tasks.skip(i as int).filter(keep) =~= Seq::<TaskRowView>::empty()) by {
            reveal(Seq::filter);
        }
        assert(self@.tasks =~= before.tasks.take(i as int) + before.tasks.skip(i as int).filter(
            keep,
        ));
        while i > 0
            invariant
                i <= before.tasks.len(),
                i <= self.tasks@.len(),
                keep == (|row: TaskRowView| !is_finished(row)),
                self@ == (AppView { tasks: self@.tasks, ..before }),
                self@.tasks == before.tasks.take(i as int) + before.tasks.skip(i as int).filter(
                    keep,
                ),
            decreases i,
        {
            let ghost rest = before.tasks.skip(i as int).filter(keep);
            let ghost now = self@.tasks;
            i -= 1;
            let ghost row = before.tasks[i as int];
            assert(now[i as int] == row);
            assert(self.tasks@[i as int].deep_view() == now[i as int]);
            let status = chars_of(self.tasks[i].status.as_str());
            let status = status.as_slice();
            let finished = same_str(status, "已完成") || same_str(status, "失败") || same_str(
                status,
                "已取消",
            );
            proof {
                assert(finished == is_finished(row));
                assert(keep(row) == !is_finished(row));
                lemma_filter_first(before.tasks.skip(i as int), keep);
                assert(before.tasks.skip(i as int).drop_first() =~= before.tasks.skip(i + 1));
            }
            if finished {
                self.tasks.remove(i);
                assert(self@.tasks =~= now.remove(i as int));
                assert(self@.tasks =~= before.tasks.take(i as int) + rest);
            } else {
                assert(now =~= before.tasks.take(i as int) + (seq![row] + rest));
            }
        }
        assert(before.tasks.skip(0) =~= before.tasks);
        assert(self@.tasks =~= unfinished(before.tasks));
    }
}

proof fn lemma_filter_first(rows: Seq<TaskRowView>, keep: spec_fn(TaskRowView) -> bool)
    requires
        rows.len() > 0,
    ensures
        rows.filter(keep) == if keep(rows[0]) {
            seq![rows[0]] + rows.drop_first().filter(keep)
        } else {
            rows.drop_first().filter(keep)
        },
{
    let rest = rows.drop_first();
    assert(rows =~= seq![rows[0]] + rest);
    rest.lemma_filter_prepend(rows[0], keep);
    assert(Seq::<TaskRowView>::empty() + rest.filter(keep) =~= rest.filter(keep));
}

/// What the user does in the window.
pub enum Intent {
    /// Connect to what the fields of the tool bar hold.
    QuickConnect { host: String, port: String, user: String, password: String },
    Disconnect,
    TestEvent,
    RemoteOpen(String),
    RemoteOpenFile(String),
    RemoteRefresh,
    RemoteUp,
    RemoteGoto(String),
    RemoteMkdir(String),
    RemoteDelete(String),
    RemoteRename(String, String),
    LocalOpen(String),
    LocalOpenFile(String),
    LocalRefresh,
    LocalUp,
    LocalGoto(String),
    LocalMkdir(String),
    LocalDelete(String),
    LocalRename(String, String),
    CancelTask(i32),
    ClearFinished,
}

/// What an [`Intent`] says.
#[verifier::ext_equal]
pub enum IntentView {
    QuickConnect { host: Seq<char>, port: Seq<char>, user: Seq<char>, password: Seq<char> },
    Disconnect,
    TestEvent,
    RemoteOpen(Seq<char>),
    RemoteOpenFile(Seq<char>),
    RemoteRefresh,
    RemoteUp,
    RemoteGoto(Seq<char>),
    RemoteMkdir(Seq<char>),
    RemoteDelete(Seq<char>),
    RemoteRename(Seq<char>, Seq<char>),
    LocalOpen(Seq<char>),
    LocalOpenFile(Seq<char>),
    LocalRefresh,
    LocalUp,
    LocalGoto(Seq<char>),
    LocalMkdir(Seq<char>),
    LocalDelete(Seq<char>),
    LocalRename(Seq<char>, Seq<char>),
    CancelTask(i32),
    ClearFinished,
}

impl DeepView for Intent {
    type V = IntentView;

    open spec fn deep_view(&self) -> IntentView {
        match self {
            Intent::QuickConnect { host, port, user, password } => IntentView::QuickConnect {
                host: host@,
                port: port@,
                user: user@,
                password: password@,
            },
            Intent::Disconnect => IntentView::Disconnect,
            Intent::TestEvent => IntentView::TestEvent,
            Intent::RemoteOpen(name) => IntentView::RemoteOpen(name@),
            Intent::RemoteOpenFile(name) => IntentView::RemoteOpenFile(name@),
            Intent::RemoteRefresh => IntentView::RemoteRefresh,
            Intent::RemoteUp => IntentView::RemoteUp,
            Intent::RemoteGoto(path) => IntentView::RemoteGoto(path@),
            Intent::RemoteMkdir(name) => IntentView::RemoteMkdir(name@),
            Intent::RemoteDelete(name) => IntentView::RemoteDelete(name@),
            Intent::RemoteRename(from, to) => IntentView::RemoteRename(from@, to@),
            Intent::LocalOpen(name) => IntentView::LocalOpen(name@),
            Intent::LocalOpenFile(name) => IntentView::LocalOpenFile(name@),
            Intent::LocalRefresh => IntentView::LocalRefresh,
            Intent::LocalUp => IntentView::LocalUp,
            Intent::LocalGoto(path) => IntentView::LocalGoto(path@),
            Intent::LocalMkdir(name) => IntentView::LocalMkdir(name@),
            Intent::LocalDelete(name) => IntentView::LocalDelete(name@),
            Intent::LocalRename(from, to) => IntentView::LocalRename(from@, to@),
            Intent::CancelTask(task_id) => IntentView::CancelTask(*task_id),
            Intent::ClearFinished => IntentView::ClearFinished,
        }
    }
}

/// The window and what it asks for once a connection is asked for. A host is needed; white space
/// around it, the port and the user does not count.
pub open spec fn quick_connected(
    w: AppView,
    host: Seq<char>,
    port: Seq<char>,
    user: Seq<char>,
    password: Seq<char>,
) -> (AppView, Seq<AppEffectView>) {
    let host = crate::text::trimmed(host);
    let port = crate::store::env::port_of(Some(crate::text::trimmed(port)));
    if host.len() == 0 {
        (AppView { status_text: "请输入主机地址"@, ..w }, Seq::empty())
    } else {
        (
            AppView { status_text: crate::worker::connecting_text(host, port), ..w },
            seq![
                AppEffectView::Ftp(
                    CommandView::Connect(
                        ConfigView {
                            host,
                            port,
                            user: crate::text::trimmed(user),
                            password,
                            mode: PassiveMode::Auto,
                            tls: TlsMode::Plain,
                            encoding: Encoding::Utf8,
                        },
                    ),
                ),
            ],
        )
    }
}

/// A path that was typed, without the white space around it; an empty one asks for nothing.
pub open spec fn gone_to(path: Seq<char>, effect: AppEffectView) -> Seq<AppEffectView> {
    if crate::text::trimmed(path).len() == 0 {
        Seq::empty()
    } else {
        seq![effect]
    }
}

/// The window and what it asks for once the user has done something.
pub open spec fn after_intent(w: AppView, intent: IntentView) -> (AppView, Seq<AppEffectView>) {
    match intent {
        IntentView::QuickConnect { host, port, user, password } => quick_connected(
            w,
            host,
            port,
            user,
            password,
        ),
        IntentView::Disconnect => (w, seq![AppEffectView::Ftp(CommandView::Quit)]),
        IntentView::TestEvent => (w, seq![AppEffectView::Ftp(CommandView::Ping)]),
        IntentView::RemoteOpen(name) => (
            w,
            seq![
                AppEffectView::Ftp(
                    CommandView::Navigate {
                        path: crate::ftp::types::joined(w.remote_path, name),
                    },
                ),
            ],
        ),
        IntentView::RemoteOpenFile(name) => enqueued(
            w,
            Direction::Download,
            crate::ftp::types::joined(w.remote_path, name),
            crate::local::joined(w.kind, w.local_path, name),
            name,
        ),
        IntentView::RemoteRefresh => (
            w,
            seq![AppEffectView::Ftp(CommandView::List { path: w.remote_path })],
        ),
        IntentView::RemoteUp => (
            w,
            match crate::ftp::types::parent_of(w.remote_path) {
                Some(path) => seq![AppEffectView::Ftp(CommandView::Navigate { path })],
                None => seq![says(LogDir::Info, "已在根目录"@)],
            },
        ),
        IntentView::RemoteGoto(path) => (
            w,
            gone_to(
                path,
                AppEffectView::Ftp(CommandView::Navigate { path: crate::text::trimmed(path) }),
            ),
        ),
        IntentView::RemoteMkdir(name) => (
            w,
            guarded(
                w.remote_path,
                is_target(name),
                AppEffectView::Ftp(
                    CommandView::Mkdir { path: crate::ftp::types::joined(w.remote_path, name) },
                ),
            ),
        ),
        IntentView::RemoteDelete(name) => (
            w,
            guarded(
                w.remote_path,
                is_target(name),
                AppEffectView::Ftp(
                    CommandView::Delete {
                        paths: seq![crate::ftp::types::joined(w.remote_path, name)],
                    },
                ),
            ),
        ),
        IntentView::RemoteRename(from, to) => (
            w,
            guarded(
                w.remote_path,
                is_target(from) && is_target(to) && from != to,
                AppEffectView::Ftp(
                    CommandView::Rename {
                        from: crate::ftp::types::joined(w.remote_path, from),
                        to: crate::ftp::types::joined(w.remote_path, to),
                    },
                ),
            ),
        ),
        IntentView::LocalOpen(name) => (
            w,
            seq![
                AppEffectView::Local(
                    LocalCommandView::List {
                        path: crate::local::joined(w.kind, w.local_path, name),
                    },
                ),
            ],
        ),
        IntentView::LocalOpenFile(name) => enqueued(
            w,
            Direction::Upload,
            crate::ftp::types::joined(w.remote_path, name),
            crate::local::joined(w.kind, w.local_path, name),
            name,
        ),
        IntentView::LocalRefresh => (
            w,
            seq![AppEffectView::Local(LocalCommandView::List { path: w.local_path })],
        ),
        IntentView::LocalUp => (
            w,
            match crate::local::parent_of(w.kind, w.local_path) {
                Some(path) => seq![AppEffectView::Local(LocalCommandView::List { path })],
                None => seq![says(LogDir::Info, "已在根目录"@)],
            },
        ),
        IntentView::LocalGoto(path) => (
            w,
            gone_to(
                path,
                AppEffectView::Local(LocalCommandView::List { path: crate::text::trimmed(path) }),
            ),
        ),
        IntentView::LocalMkdir(name) => (
            w,
            guarded(
                w.local_path,
                is_target(name),
                AppEffectView::Local(
                    LocalCommandView::Mkdir {
                        path: crate::local::joined(w.kind, w.local_path, name),
                    },
                ),
            ),
        ),
        IntentView::LocalDelete(name) => (
            w,
            guarded(
                w.local_path,
                is_target(name),
                AppEffectView::Local(
                    LocalCommandView::Delete {
                        paths: seq![crate::local::joined(w.kind, w.local_path, name)],
                    },
                ),
            ),
        ),
        IntentView::LocalRename(from, to) => (
            w,
            guarded(
                w.local_path,
                is_target(from) && is_target(to) && from != to,
                AppEffectView::Local(
                    LocalCommandView::Rename {
                        from: crate::local::joined(w.kind, w.local_path, from),
                        to: crate::local::joined(w.kind, w.local_path, to),
                    },
                ),
            ),
        ),
        IntentView::CancelTask(task_id) => (
            w,
            seq![
                AppEffectView::Ftp(
                    CommandView::CancelTask {
                        task_id: if task_id >= 0 {
                            task_id as u64
                        } else {
                            u64::MAX
                        },
                    },
                ),
            ],
        ),
        IntentView::ClearFinished => (
            AppView { tasks: unfinished(w.tasks), ..w },
            Seq::empty(),
        ),
    }
}

impl App {
    fn quick_connect(&mut self, host: &str, port: &str, user: &str, password: String) -> (r: Vec<
        AppEffect,
    >)
        ensures
            (final(self)@, r.deep_view()) == quick_connected(
                old(self)@,
                host@,
                port@,
                user@,
                password@,
            ),
    {
        let host = trimmed_text(host);
        if host.as_str().is_empty() {
            self.status_text = "请输入主机地址".to_string();
            return nothing();
        }
        let port = port_or_default(trimmed_text(port).as_str());
        let user = trimmed_text(user);
        self.status_text = connecting_line(host.as_str(), port);
        self.connect(
            ConnectConfig {
                host,
                port,
                user,
                password,
                mode: PassiveMode::Auto,
                tls: TlsMode::Plain,
                encoding: Encoding::Utf8,
            },
        )
    }

    fn remote_up(&self) -> (r: Vec<AppEffect>)
        ensures
            (self@, r.deep_view()) == after_intent(self@, IntentView::RemoteUp),
    {
        match parent_remote(self.remote_path.as_str()) {
            Some(path) => self.remote_navigate(path),
            None => self.log(LogDir::Info, "已在根目录".to_string()),
        }
    }

    fn local_up(&self) -> (r: Vec<AppEffect>)
        ensures
            (self@, r.deep_view()) == after_intent(self@, IntentView::LocalUp),
    {
        match local::parent(self.kind, self.local_path.as_str()) {
            Some(path) => self.local_list(path),
            None => self.log(LogDir::Info, "已在根目录".to_string()),
        }
    }

    fn remote_goto(&self, path: &str) -> (r: Vec<AppEffect>)
        ensures
            (self@, r.deep_view()) == after_intent(self@, IntentView::RemoteGoto(path@)),
    {
        let path = trimmed_text(path);
        if path.as_str().is_empty() {
            nothing()
        } else {
            self.remote_navigate(path)
        }
    }

    fn local_goto(&self, path: &str) -> (r: Vec<AppEffect>)
        ensures
            (self@, r.deep_view()) == after_intent(self@, IntentView::LocalGoto(path@)),
    {
        let path = trimmed_text(path);
        if path.as_str().is_empty() {
            nothing()
        } else {
            self.local_list(path)
        }
    }

    /// Does what the user wants in the window, and says what is asked of the workers.
    pub fn handle(&mut self, intent: Intent) -> (r: Vec<AppEffect>)
        requires
            old(self)@.wf(),
        ensures
            (final(self)@, r.deep_view()) == after_intent(old(self)@, intent.deep_view()),
            final(self)@.wf(),
    {
        match intent {
            Intent::QuickConnect { host, port, user, password } => self.quick_connect(
                host.as_str(),
                port.as_str(),
                user.as_str(),
                password,
            ),
            Intent::Disconnect => self.disconnect(),
            Intent::TestEvent => self.ping(),
            Intent::RemoteOpen(name) => {
                let path = join_remote(self.remote_path.as_str(), name.as_str());
                self.remote_navigate(path)
            },
            Intent::RemoteOpenFile(name) => {
                let base = self.remote_path.clone();
                self.download_remote_file(base.as_str(), name.as_str())
            },
            Intent::RemoteRefresh => self.remote_refresh(self.remote_path.clone()),
            Intent::RemoteUp => self.remote_up(),
            Intent::RemoteGoto(path) => self.remote_goto(path.as_str()),
            Intent::RemoteMkdir(name) => self.remote_mkdir(
                self.remote_path.as_str(),
                name.as_str(),
            ),
            Intent::RemoteDelete(name) => self.remote_delete(
                self.remote_path.as_str(),
                name.as_str(),
            ),
            Intent::RemoteRename(from, to) => self.remote_rename(
                self.remote_path.as_str(),
                from.as_str(),
                to.as_str(),
            ),
            Intent::LocalOpen(name) => {
                let path = local::join(self.kind, self.local_path.as_str(), name.as_str());
                self.local_list(path)
            },
            Intent::LocalOpenFile(name) => {
                let base = self.local_path.clone();
                self.upload_local_file(base.as_str(), name.as_str())
            },
            Intent::LocalRefresh => self.local_list(self.local_path.clone()),
            Intent::LocalUp => self.local_up(),
            Intent::LocalGoto(path) => self.local_goto(path.as_str()),
            Intent::LocalMkdir(name) => self.local_mkdir(self.local_path.as_str(), name.as_str()),
            Intent::LocalDelete(name) => self.local_delete(
                self.local_path.as_str(),
                name.as_str(),
            ),
            Intent::LocalRename(from, to) => self.local_rename(
                self.local_path.as_str(),
                from.as_str(),
                to.as_str(),
            ),
            Intent::CancelTask(task_id) => self.cancel_task(task_id),
            Intent::ClearFinished => {
                self.clear_finished_tasks();
                nothing()
            },
        }
    }
}

/// The newest line of the log comes first, the others keep their order, and only the oldest goes
/// when there are too many.
pub proof fn log_keeps_the_newest(lines: Seq<Seq<char>>, dir: LogDir, text: Seq<char>)
    requires
        lines.len() <= 500,
    ensures
        logged(lines, dir, text)[0] == log_line(dir, text),
        logged(lines, dir, text).drop_first() == if lines.len() < 500 {
            lines
        } else {
            lines.drop_last()
        },
{
    assert(logged(lines, dir, text).drop_first() =~= if lines.len() < 500 {
        lines
    } else {
        lines.drop_last()
    });
}

/// Clearing takes out the rows of the tasks that have ended and no others, and clearing again
/// changes nothing.
pub proof fn clearing_keeps_the_unfinished(tasks: Seq<TaskRowView>, row: TaskRowView)
    ensures
        unfinished(tasks).contains(row) <==> tasks.contains(row) && !is_finished(row),
        unfinished(unfinished(tasks)) == unfinished(tasks),
{
    broadcast use Seq::lemma_filter_pred, Seq::lemma_filter_contains_rev;

    let keep = |row: TaskRowView| !is_finished(row);
    let left = unfinished(tasks);
    if tasks.contains(row) && keep(row) {
        let i = choose|i: int| 0 <= i < tasks.len() && tasks[i] == row;
        tasks.lemma_filter_contains(keep, i);
    }
    assert(forall|i: int| 0 <= i < left.len() ==> keep(#[trigger] left[i]));
    lemma_filter_all(left, keep);
}

proof fn lemma_filter_all(rows: Seq<TaskRowView>, keep: spec_fn(TaskRowView) -> bool)
    requires
        forall|i: int| 0 <= i < rows.len() ==> keep(#[trigger] rows[i]),
    ensures
        rows.filter(keep) == rows,
    decreases rows.len(),
{
    reveal(Seq::filter);
    if rows.len() > 0 {
        assert(keep(rows[rows.len() - 1]));
        lemma_filter_all(rows.drop_last(), keep);
        assert(rows.drop_last().push(rows.last()) =~= rows);
    } else {
        assert(rows.filter(keep) =~= rows);
    }
}

/// The end of a task shows in its own row alone, and its row can then be cleared.
pub proof fn ended_tasks_can_be_cleared(
    tasks: Seq<TaskRowView>,
    task_id: u64,
    outcome: OutcomeView,
    i: int,
)
    requires
        first_row(tasks, task_id) == Some(i),
    ensures
        0 <= i < tasks.len(),
        is_finished(ended_rows(tasks, task_id, outcome)[i]),
        ended_rows(tasks, task_id, outcome).len() == tasks.len(),
        forall|j: int|
            0 <= j < tasks.len() && j != i ==> #[trigger] ended_rows(tasks, task_id, outcome)[j]
                == tasks[j],
{
    lemma_first_row(tasks, task_id);
}

proof fn lemma_first_row_is(tasks: Seq<TaskRowView>, task_id: u64, i: int)
    requires
        0 <= i < tasks.len(),
        is_row_of(tasks[i], task_id),
        forall|j: int| 0 <= j < i ==> !is_row_of(#[trigger] tasks[j], task_id),
    ensures
        first_row(tasks, task_id) == Some(i),
{
    lemma_first_row(tasks, task_id);
    let f = first_row(tasks, task_id);
    if f->0 < i {
        assert(!is_row_of(tasks[f->0], task_id));
    }
}

/// A task is shown from the queue to its end: the row that was added waits, moves on with the
/// task's progress, and ends with its outcome, while the rows before it stay as they are.
pub proof fn tasks_are_shown_to_their_end(
    w: AppView,
    direction: Direction,
    remote: Seq<char>,
    local: Seq<char>,
    name: Seq<char>,
    done: u64,
    total: u64,
    speed: u64,
    outcome: OutcomeView,
)
    requires
        w.next_task_id <= i32::MAX,
        first_row(w.tasks, w.next_task_id).is_none(),
    ensures
        ({
            let id = w.next_task_id;
            let none = Seq::<FileRowView>::empty();
            let waiting = waiting_row(id, direction, name);
            let moving = moving_row(waiting, done, total, speed);
            let w1 = enqueued(w, direction, remote, local, name).0;
            let w2 = after_event(
                w1,
                EventView::TaskProgress { task_id: id, done, total, speed },
                none,
            );
            let w3 = after_event(w2, EventView::TaskFinished { task_id: id, outcome }, none);
            &&& w1.tasks == w.tasks.push(waiting)
            &&& w2.tasks == w.tasks.push(moving)
            &&& w3.tasks == w.tasks.push(ended_row(moving, outcome))
            &&& is_finished(w3.tasks.last())
        }),
{
    let id = w.next_task_id;
    let n = w.tasks.len() as int;
    let waiting = waiting_row(id, direction, name);
    let moving = moving_row(waiting, done, total, speed);
    lemma_first_row(w.tasks, id);
    let t1 = w.tasks.push(waiting);
    assert forall|j: int| 0 <= j < n implies !is_row_of(#[trigger] t1[j], id) by {
        assert(t1[j] == w.tasks[j]);
    }
    lemma_first_row_is(t1, id, n);
    assert(t1.update(n, moving) =~= w.tasks.push(moving));
    let t2 = w.tasks.push(moving);
    assert forall|j: int| 0 <= j < n implies !is_row_of(#[trigger] t2[j], id) by {
        assert(t2[j] == w.tasks[j]);
    }
    lemma_first_row_is(t2, id, n);
    assert(t2.update(n, ended_row(moving, outcome)) =~= w.tasks.push(ended_row(moving, outcome)));
}

/// The id of the transfer that comes `n` transfers after the one with the given id.
pub open spec fn later_id(id: u64, n: nat) -> u64
    decreases n,
{
    if n == 0 {
        id
    } else {
        id_after(later_id(id, (n - 1) as nat))
    }
}

/// Ids repeat only after all of them were given out.
pub proof fn ids_are_given_once(id: u64, i: nat, j: nat)
    requires
        i < j < i + 0x1_0000_0000_0000_0000,
    ensures
        later_id(id, i) != later_id(id, j),
{
    lemma_later_id(id, i);
    lemma_later_id(id, j);
}

proof fn lemma_later_id(id: u64, n: nat)
    ensures
        later_id(id, n) == (id + n) % 0x1_0000_0000_0000_0000,
    decreases n,
{
    if n > 0 {
        lemma_later_id(id, (n - 1) as nat);
    }
}

/// No name but a real one reaches the workers, and none before a directory is shown: an empty
/// name, `.` and `..` ask for nothing.
pub proof fn only_real_names_are_sent(w: AppView, name: Seq<char>, intent: IntentView)
    requires
        intent == IntentView::RemoteMkdir(name) || intent == IntentView::RemoteDelete(name)
            || intent == IntentView::LocalMkdir(name) || intent == IntentView::LocalDelete(name),
    ensures
        ({
            let base = if intent is RemoteMkdir || intent is RemoteDelete {
                w.remote_path
            } else {
                w.local_path
            };
            let (next, effects) = after_intent(w, intent);
            &&& next == w
            &&& effects.len() <= 1
            &&& effects.len() == 1 && !(effects[0] is Emit) <==> base.len() > 0 && is_target(name)
            &&& effects.len() == 1 && effects[0] is Emit <==> base.len() == 0
        }),
{
}

/// Going into a remote directory and up again leads back to where one was, without the slashes at
/// its end.
pub proof fn up_undoes_open(w: AppView, name: Seq<char>)
    requires
        name.len() > 0,
        !name.contains('/'),
    ensures
        ({
            let inside = crate::ftp::types::joined(w.remote_path, name);
            let up = after_intent(AppView { remote_path: inside, ..w }, IntentView::RemoteUp).1;
            &&& after_intent(w, IntentView::RemoteOpen(name)).1 == seq![
                AppEffectView::Ftp(CommandView::Navigate { path: inside }),
            ]
            &&& up == seq![
                AppEffectView::Ftp(
                    CommandView::Navigate {
                        path: if crate::ftp::types::unslashed(w.remote_path).len() == 0 {
                            seq!['/']
                        } else {
                            crate::ftp::types::unslashed(w.remote_path)
                        },
                    },
                ),
            ]
        }),
{
    crate::ftp::types::parent_undoes_join(w.remote_path, name);
}

/// Going into a local directory and up again leads back to where one was. On Windows the name has
/// no prefix, and does not become a part of the prefix of the directory.
pub proof fn local_up_undoes_open(w: AppView, name: Seq<char>)
    requires
        w.local_path.len() > 0,
        crate::local::is_name(w.kind, w.local_path, name),
        crate::local::prefix_len(w.kind, name) == 0,
        crate::local::prefix_len(w.kind, crate::local::joined(w.kind, w.local_path, name))
            == crate::local::prefix_len(w.kind, w.local_path),
    ensures
        ({
            let inside = crate::local::joined(w.kind, w.local_path, name);
            let up = after_intent(AppView { local_path: inside, ..w }, IntentView::LocalUp).1;
            &&& after_intent(w, IntentView::LocalOpen(name)).1 == seq![
                AppEffectView::Local(LocalCommandView::List { path: inside }),
            ]
            &&& up == seq![
                AppEffectView::Local(
                    LocalCommandView::List {
                        path: crate::local::as_parent(w.kind, w.local_path),
                    },
                ),
            ]
        }),
{
    crate::local::parent_undoes_join(w.kind, w.local_path, name);
}

/// A file that is opened in either panel is moved to the other: the request goes to the queue as
/// it is, whatever the control worker knows.
pub proof fn opened_files_reach_the_queue(
    w: AppView,
    name: Seq<char>,
    c: crate::worker::ControlView,
)
    requires
        c.phase == crate::worker::ControlPhaseView::Idle,
    ensures
        ({
            let request = |direction: Direction|
                RequestView {
                    task_id: w.next_task_id,
                    direction,
                    remote: crate::ftp::types::joined(w.remote_path, name),
                    local: crate::local::joined(w.kind, w.local_path, name),
                    size: 0,
                };
            let queued = |tasks: Seq<RequestView>|
                crate::worker::control_step(
                    c,
                    crate::worker::ControlReportView::Command(
                        CommandView::EnqueueTransfers { tasks },
                    ),
                ).1.queue;
            let down = seq![request(Direction::Download)];
            let up = seq![request(Direction::Upload)];
            &&& after_intent(w, IntentView::RemoteOpenFile(name)).1[0] == AppEffectView::Ftp(
                CommandView::EnqueueTransfers { tasks: down },
            )
            &&& after_intent(w, IntentView::LocalOpenFile(name)).1[0] == AppEffectView::Ftp(
                CommandView::EnqueueTransfers { tasks: up },
            )
            &&& queued(down) == Some(crate::queue::QueueCommandView::Enqueue(down))
            &&& queued(up) == Some(crate::queue::QueueCommandView::Enqueue(up))
        }),
{
}

/// What the window asks for can be opened: a host that is not blank is connected to, at the port
/// that is written there, as the user and with the password that are written there, and in all
/// else as a configuration is by default; a session begins by looking that host up.
pub proof fn quick_connections_can_be_opened(
    w: AppView,
    host: Seq<char>,
    port: Seq<char>,
    user: Seq<char>,
    password: Seq<char>,
    n: int,
)
    requires
        crate::text::trimmed(host).len() > 0,
        0 <= n <= 65_535,
    ensures
        ({
            let intent = IntentView::QuickConnect { host, port, user, password };
            let (next, effects) = after_intent(w, intent);
            &&& effects.len() == 1
            &&& effects[0] matches AppEffectView::Ftp(CommandView::Connect(cfg)) && {
                &&& next == (AppView {
                    status_text: "正在连接 "@ + (crate::text::trimmed(host) + seq![':']
                        + crate::text::decimal(cfg.port as int)) + " …"@,
                    ..w
                })
                &&& crate::ftp::client::connect_step(
                    crate::ftp::client::unopened(cfg),
                    crate::ftp::client::ConnectReportView::Begin,
                ).1 == (crate::ftp::client::ConnectActionView::Resolve {
                    host: crate::text::trimmed(host),
                    port: cfg.port,
                })
                &&& cfg.user == crate::text::trimmed(user)
                &&& cfg.password == password
                &&& cfg.mode == PassiveMode::Auto && cfg.encoding == Encoding::Utf8
                &&& crate::text::trimmed(port) == crate::text::decimal(n) ==> cfg.port == n
                &&& crate::text::trimmed(port).len() == 0 ==> cfg.port == 21
                &&& forall|default: crate::ftp::types::ConnectConfig| #[trigger]
                    call_ensures(
                        <crate::ftp::types::ConnectConfig as Default>::default,
                        (),
                        default,
                    ) ==> cfg.mode == default.mode && cfg.tls == default.tls && cfg.encoding
                        == default.encoding
            }
        }),
{
    crate::store::env::ports_read_back(n, crate::text::trimmed(port));
}

/// A blank host is not connected to, and that is all that comes of it.
pub proof fn blank_hosts_are_not_connected_to(
    w: AppView,
    host: Seq<char>,
    port: Seq<char>,
    user: Seq<char>,
    password: Seq<char>,
)
    requires
        crate::text::trimmed(host).len() == 0,
    ensures
        ({
            let (next, effects) = after_intent(
                w,
                IntentView::QuickConnect { host, port, user, password },
            );
            &&& effects.len() == 0
            &&& next == (AppView { status_text: "请输入主机地址"@, ..w })
        }),
{
}

/// The bar of a task is filled in proportion to what was moved, and the percentage is that share,
/// rounded down; the task itself stays what it is.
pub proof fn progress_is_shown_in_proportion(
    row: TaskRowView,
    done: u64,
    total: u64,
    speed: u64,
)
    ensures
        ({
            let r = moving_row(row, done, total, speed);
            &&& r == (TaskRowView {
                part: r.part,
                whole: r.whole,
                progress_str: r.progress_str,
                speed_str: r.speed_str,
                status: r.status,
                ..row
            })
            &&& r.whole > 0 && r.part <= r.whole
            &&& total > 0 && done <= total ==> r.part * total == done * r.whole
            &&& total > 0 && done >= total ==> r.part == r.whole
            &&& total == 0 ==> r.part == 0 && r.progress_str == crate::format::size_text(done)
            &&& total > 0 && done * 100 <= u64::MAX ==> exists|percent: int|
                {
                    &&& r.progress_str == #[trigger] crate::text::decimal(percent) + "%"@
                    &&& percent * total <= 100 * done < (percent + 1) * total
                }
            &&& done * 100 > u64::MAX ==> r.progress_str == crate::format::size_text(done)
            &&& speed > 0 ==> r.speed_str == crate::format::size_text(speed) + "/s"@
            &&& speed == 0 ==> r.speed_str == "—"@
            &&& r.status == "传输中"@
            &&& !is_finished(r)
        }),
{
    let r = moving_row(row, done, total, speed);
    if total > 0 {
        let percent = done * 100 / total as int;
        assert(percent * total <= 100 * done < (percent + 1) * total) by (nonlinear_arith)
            requires
                percent == done * 100 / total as int,
                total > 0,
        ;
        if done <= total {
            assert(r.part * total == done * r.whole) by (nonlinear_arith)
                requires
                    r.whole == total,
                    r.part == done,
            ;
        }
        if done * 100 <= u64::MAX {
            assert(r.progress_str == crate::text::decimal(percent) + "%"@);
        }
    }
    reveal_strlit("传输中");
    reveal_strlit("已完成");
    reveal_strlit("失败");
    reveal_strlit("已取消");
    assert("传输中"@[0] != "已完成"@[0]);
    assert("传输中"@[0] != "已取消"@[0]);
    assert("传输中"@.len() != "失败"@.len());
}

/// How a task ended can be told from its row: only one that completed is shown in full, each
/// outcome has a word of its own, and what the task is stays as it was.
pub proof fn outcomes_are_told_apart(row: TaskRowView, text: Seq<char>)
    ensures
        ({
            let completed = ended_row(row, OutcomeView::Completed);
            let failed = ended_row(row, OutcomeView::Failed(text));
            let canceled = ended_row(row, OutcomeView::Canceled);
            &&& completed.status == "已完成"@ && failed.status == "失败"@ && canceled.status
                == "已取消"@
            &&& completed.status != failed.status && completed.status != canceled.status
                && failed.status != canceled.status
            &&& is_finished(completed) && is_finished(failed) && is_finished(canceled)
            &&& completed.part == completed.whole && completed.progress_str == "100%"@
            &&& completed.speed_str == "—"@ && failed.speed_str == "—"@ && canceled.speed_str
                == "—"@
            &&& completed.size_str == row.size_str && failed.size_str == row.size_str
                && canceled.size_str == row.size_str
            &&& failed.part == row.part && failed.whole == row.whole && failed.progress_str
                == row.progress_str
            &&& canceled.part == row.part && canceled.whole == row.whole && canceled.progress_str
                == row.progress_str
            &&& completed.task_id == row.task_id && failed.task_id == row.task_id
                && canceled.task_id == row.task_id
            &&& completed.name == row.name && failed.name == row.name && canceled.name == row.name
            &&& completed.direction == row.direction && failed.direction == row.direction
                && canceled.direction == row.direction
        }),
{
    reveal_strlit("已完成");
    reveal_strlit("失败");
    reveal_strlit("已取消");
    assert("已完成"@[1] != "已取消"@[1]);
    assert("失败"@.len() == 2);
}

/// Whether the rows of all tasks but one are as they were.
pub open spec fn others_stay(
    before: Seq<TaskRowView>,
    after: Seq<TaskRowView>,
    task_id: u64,
) -> bool {
    &&& after.len() == before.len()
    &&& forall|i: int|
        0 <= i < before.len() && before[i].task_id != task_id ==> #[trigger] after[i] == before[i]
}

/// Events change what they are about: a remote listing the remote panel, a local one the local
/// panel, the progress of a task the rows of the tasks, and a connection what is said of it. Lines
/// of the log, errors and the ends of sessions are kept in the log word by word.
pub proof fn events_change_what_they_are_about(
    w: AppView,
    ev: EventView,
    rows: Seq<FileRowView>,
)
    requires
        w.wf(),
    ensures
        ({
            let next = after_event(w, ev, rows);
            let panels = next.remote_path == w.remote_path && next.remote_files == w.remote_files
                && next.local_path == w.local_path && next.local_files == w.local_files;
            let newest = next.log_lines[0];
            let ends_with = |text: Seq<char>|
                next.log_lines.len() > 0 && newest.len() >= text.len() && newest.skip(
                    newest.len() - text.len(),
                ) == text;
            &&& next.kind == w.kind && next.next_task_id == w.next_task_id
            &&& match ev {
                EventView::Connected => next.connected && panels && next.tasks == w.tasks
                    && next.status_text == "已连接"@,
                EventView::Disconnected { reason } => !next.connected && panels && next.tasks
                    == w.tasks && ends_with(reason) && next.status_text == "未连接"@,
                EventView::Listing { path, entries } => {
                    &&& next.remote_path == path && next.remote_files == rows
                    &&& next.local_path == w.local_path && next.local_files == w.local_files
                    &&& next.connected == w.connected && next.tasks == w.tasks
                    &&& next.status_text == w.status_text && ends_with(path)
                },
                EventView::LocalListing { path, entries } => {
                    &&& next.local_path == path && next.local_files == rows
                    &&& next.remote_path == w.remote_path && next.remote_files == w.remote_files
                    &&& next.connected == w.connected && next.tasks == w.tasks
                    &&& next.log_lines == w.log_lines && next.status_text == w.status_text
                },
                EventView::LogLine { dir, text } => panels && next.tasks == w.tasks
                    && next.connected == w.connected && next.status_text == w.status_text
                    && ends_with(text),
                EventView::Error { context, message } => panels && next.tasks == w.tasks
                    && next.connected == w.connected && ends_with(message) && next.status_text
                    == "错误："@ + context,
                EventView::TaskProgress { task_id, done, total, speed } => panels
                    && next.log_lines == w.log_lines && next.connected == w.connected
                    && next.status_text == w.status_text && others_stay(
                    w.tasks,
                    next.tasks,
                    task_id,
                ),
                EventView::TaskFinished { task_id, outcome } => panels && next.log_lines
                    == w.log_lines && next.connected == w.connected && next.status_text
                    == w.status_text && others_stay(w.tasks, next.tasks, task_id),
            }
        }),
{
    let next = after_event(w, ev, rows);
    match ev {
        EventView::TaskProgress { task_id, done, total, speed } => {
            lemma_first_row(w.tasks, task_id);
        },
        EventView::TaskFinished { task_id, outcome } => {
            lemma_first_row(w.tasks, task_id);
        },
        _ => {},
    }
    let (dir, text, tail) = match ev {
        EventView::Disconnected { reason } => (LogDir::Info, "连接已断开："@ + reason, reason),
        EventView::Listing { path, entries } => (
            LogDir::Info,
            "远程目录已更新（"@ + crate::text::decimal(entries.len() as int) + " 项）："@ + path,
            path,
        ),
        EventView::LogLine { dir, text } => (dir, text, text),
        EventView::Error { context, message } => (
            LogDir::Error,
            context + "："@ + message,
            message,
        ),
        _ => (LogDir::Info, "连接就绪"@, Seq::empty()),
    };
    log_keeps_the_newest(w.log_lines, dir, text);
    assert(logged(w.log_lines, dir, text).len() > 0);
    let line = log_line(dir, text);
    if ev is Listing || ev is LogLine || ev is Error || ev is Disconnected {
        assert(next.log_lines == logged(w.log_lines, dir, text));
    }
    assert(text.skip(text.len() - tail.len()) =~= tail);
    assert(line.skip(line.len() - tail.len()) =~= tail);
}

/// The kinds of log lines can be told apart, and every line ends with what it says.
pub proof fn log_lines_say_what_they_are_about(a: LogDir, b: LogDir, text: Seq<char>)
    ensures
        a != b ==> log_line(a, text) != log_line(b, text),
        log_line(LogDir::Send, text) == "[命令] "@ + text,
        log_line(LogDir::Recv, text) == "[响应] "@ + text,
        log_line(LogDir::Info, text) == "[信息] "@ + text,
        log_line(LogDir::Error, text) == "[错误] "@ + text,
        log_line(a, text).skip(log_line(a, text).len() - text.len()) == text,
{
    reveal_strlit("[");
    reveal_strlit("] ");
    reveal_strlit("命令");
    reveal_strlit("响应");
    reveal_strlit("信息");
    reveal_strlit("错误");
    reveal_strlit("[命令] ");
    reveal_strlit("[响应] ");
    reveal_strlit("[信息] ");
    reveal_strlit("[错误] ");
    assert(log_line(LogDir::Send, text) =~= "[命令] "@ + text);
    assert(log_line(LogDir::Recv, text) =~= "[响应] "@ + text);
    assert(log_line(LogDir::Info, text) =~= "[信息] "@ + text);
    assert(log_line(LogDir::Error, text) =~= "[错误] "@ + text);
    let (x, y) = (log_line(a, text), log_line(b, text));
    let (p, q) = (crate::ftp::types::log_tag(a), crate::ftp::types::log_tag(b));
    assert(x[1] == p[0] && y[1] == q[0]);
    assert(x.skip(x.len() - text.len()) =~= text);
}

/// The row of a transfer and its request have the same id, so that canceling the row cancels the
/// transfer; the row says which file goes which way.
pub proof fn rows_cancel_their_own_transfers(
    w: AppView,
    direction: Direction,
    remote: Seq<char>,
    local: Seq<char>,
    name: Seq<char>,
)
    requires
        w.next_task_id <= i32::MAX,
    ensures
        ({
            let (next, effects) = enqueued(w, direction, remote, local, name);
            let row = next.tasks.last();
            &&& next.tasks.drop_last() == w.tasks
            &&& row.name == name
            &&& row.direction[0] == if direction == Direction::Download {
                '↓'
            } else {
                '↑'
            }
            &&& !is_finished(row)
            &&& effects[0] matches AppEffectView::Ftp(CommandView::EnqueueTransfers { tasks }) && {
                &&& tasks.len() == 1
                &&& tasks[0].direction == direction && tasks[0].remote == remote && tasks[0].local
                    == local
                &&& after_intent(next, IntentView::CancelTask(row.task_id)).1 == seq![
                    AppEffectView::Ftp(CommandView::CancelTask { task_id: tasks[0].task_id }),
                ]
            }
            &&& next.next_task_id != w.next_task_id
        }),
{
    let (next, effects) = enqueued(w, direction, remote, local, name);
    reveal_strlit("↓ 下载");
    reveal_strlit("↑ 上传");
    reveal_strlit("等待");
    reveal_strlit("已完成");
    reveal_strlit("失败");
    reveal_strlit("已取消");
    assert("等待"@[0] != "失败"@[0]);
    assert("等待"@.len() == 2 && "已完成"@.len() == 3 && "已取消"@.len() == 3);
    assert(next.tasks.drop_last() =~= w.tasks);
}

/// Refreshing lists what is shown, and a path that is typed leads there, blanks around it aside.
pub proof fn panels_go_where_they_are_told(w: AppView, path: Seq<char>)
    requires
        crate::text::trimmed(path).len() > 0,
    ensures
        after_intent(w, IntentView::RemoteRefresh) == (
            w,
            seq![AppEffectView::Ftp(CommandView::List { path: w.remote_path })],
        ),
        after_intent(w, IntentView::LocalRefresh) == (
            w,
            seq![AppEffectView::Local(LocalCommandView::List { path: w.local_path })],
        ),
        after_intent(w, IntentView::RemoteGoto(path)) == (
            w,
            seq![AppEffectView::Ftp(CommandView::Navigate { path: crate::text::trimmed(path) })],
        ),
        after_intent(w, IntentView::LocalGoto(path)) == (
            w,
            seq![
                AppEffectView::Local(LocalCommandView::List { path: crate::text::trimmed(path) }),
            ],
        ),
        after_intent(w, IntentView::Disconnect) == (
            w,
            seq![AppEffectView::Ftp(CommandView::Quit)],
        ),
{
}

/// File operations act on the name in the directory that is shown: what is made, removed or
/// renamed lies there, and a renaming leads from the first name to the second.
pub proof fn file_operations_stay_in_the_directory(w: AppView, from: Seq<char>, to: Seq<char>)
    requires
        is_target(from),
        is_target(to),
        from != to,
        !from.contains('/'),
        !to.contains('/'),
        w.remote_path.len() > 0,
    ensures
        ({
            let dir = if crate::ftp::types::unslashed(w.remote_path).len() == 0 {
                seq!['/']
            } else {
                crate::ftp::types::unslashed(w.remote_path)
            };
            let is_at = |path: Seq<char>, name: Seq<char>|
                crate::ftp::types::split_at_slash(path) == (dir, name);
            let made = after_intent(w, IntentView::RemoteMkdir(from)).1;
            let removed = after_intent(w, IntentView::RemoteDelete(from)).1;
            let renamed = after_intent(w, IntentView::RemoteRename(from, to)).1;
            &&& made.len() == 1
            &&& made[0] matches AppEffectView::Ftp(
                CommandView::Mkdir { path },
            ) && is_at(path, from)
            &&& removed.len() == 1
            &&& removed[0] matches AppEffectView::Ftp(
                CommandView::Delete { paths },
            ) && paths.len() == 1 && is_at(paths[0], from)
            &&& renamed.len() == 1
            &&& renamed[0] matches AppEffectView::Ftp(
                CommandView::Rename { from: old_path, to: new_path },
            ) && is_at(old_path, from) && is_at(new_path, to)
        }),
{
    assert(from.len() > 0 && to.len() > 0) by {
        lemma_targets_are_named(from);
        lemma_targets_are_named(to);
    }
    crate::ftp::types::split_undoes_join(w.remote_path, from);
    crate::ftp::types::split_undoes_join(w.remote_path, to);
}

proof fn lemma_targets_are_named(name: Seq<char>)
    requires
        is_target(name),
    ensures
        name.len() > 0,
{
    if name.len() == 0 {
        crate::text::trimmed_keeps_the_rest(name);
    }
}

/// Local file operations act on the name in the local directory that is shown.
pub proof fn local_operations_stay_in_the_directory(w: AppView, from: Seq<char>, to: Seq<char>)
    requires
        is_target(from),
        is_target(to),
        from != to,
        w.local_path.len() > 0,
    ensures
        ({
            let at = |name: Seq<char>| crate::local::joined(w.kind, w.local_path, name);
            &&& after_intent(w, IntentView::LocalMkdir(from)).1 == seq![
                AppEffectView::Local(LocalCommandView::Mkdir { path: at(from) }),
            ]
            &&& after_intent(w, IntentView::LocalDelete(from)).1 == seq![
                AppEffectView::Local(LocalCommandView::Delete { paths: seq![at(from)] }),
            ]
            &&& after_intent(w, IntentView::LocalRename(from, to)).1 == seq![
                AppEffectView::Local(LocalCommandView::Rename { from: at(from), to: at(to) }),
            ]
        }),
{
}

/// The first local directory is the one that the environment names, the profile before the home,
/// where it is a directory, and else the current one.
pub proof fn first_directory_is_the_users(
    profile: Option<PlaceView>,
    home: Option<PlaceView>,
    current: Seq<char>,
)
    ensures
        profile matches Some(place) ==> first_local_dir(profile, home, Some(current)) == if place.is_dir {
            place.path
        } else {
            current
        },
        profile.is_none() ==> (home matches Some(place) ==> first_local_dir(
            profile,
            home,
            Some(current),
        ) == if place.is_dir {
            place.path
        } else {
            current
        }),
        profile.is_none() && home.is_none() ==> first_local_dir(profile, home, Some(current))
            == current,
{
}

/// A row shows the entry that it is of.
pub proof fn rows_show_their_entries(e: EntryView, row: FileRowView)
    requires
        shows_entry(e, row),
    ensures
        row.name == e.name,
        row.is_dir == e.is_dir,
        row.size_str == crate::format::size_text(e.size),
        row.perms.len() > 0 ==> e.perms == Some(row.perms),
        e.perms matches Some(perms) ==> row.perms == perms,
        e.modified.is_none() ==> row.modified_str.len() == 0,
        e.modified matches Some(at) ==> (crate::format::can_be_shown(at as int)
            ==> crate::format::shows_instant(at as int, row.modified_str)),
{
}

/// Going up leads to the directory that holds the one that is shown; where there is none, nothing
/// is asked for.
pub proof fn up_leads_to_the_directory_above(w: AppView)
    ensures
        ({
            let path = crate::ftp::types::unslashed(w.remote_path);
            let (next, effects) = after_intent(w, IntentView::RemoteUp);
            &&& next == w
            &&& effects.len() == 1
            &&& if path.contains('/') {
                effects[0] matches AppEffectView::Ftp(CommandView::Navigate { path: above }) && (
                path.skip(above.len() as int)[0] == '/' || above == seq!['/']) && path.take(
                    above.len() as int,
                ) == above
            } else {
                effects[0] is Emit
            }
        }),
{
    let path = crate::ftp::types::unslashed(w.remote_path);
    crate::ftp::types::split_parts_make_up_the_path(w.remote_path);
    let (above, name) = crate::ftp::types::split_at_slash(w.remote_path);
    if path.contains('/') {
        assert(path.take(above.len() as int) =~= above);
    }
}

/// Every name will do but a blank one and the two that stand for directories; a renaming needs two
/// that differ, and a path that is blank leads nowhere.
pub proof fn only_blanks_and_dots_are_no_names(w: AppView, from: Seq<char>, to: Seq<char>)
    ensures
        is_target(from) <==> crate::text::trimmed(from).len() > 0 && crate::text::trimmed(from)
            != seq!['.'] && crate::text::trimmed(from) != seq!['.', '.'],
        after_intent(w, IntentView::RemoteRename(from, to)).0 == w,
        after_intent(w, IntentView::LocalRename(from, to)).0 == w,
        w.remote_path.len() > 0 && !(is_target(from) && is_target(to) && from != to)
            ==> after_intent(w, IntentView::RemoteRename(from, to)).1.len() == 0,
        w.local_path.len() > 0 && !(is_target(from) && is_target(to) && from != to)
            ==> after_intent(w, IntentView::LocalRename(from, to)).1.len() == 0,
        crate::text::trimmed(from).len() == 0 ==> after_intent(
            w,
            IntentView::RemoteGoto(from),
        ).1.len() == 0 && after_intent(w, IntentView::LocalGoto(from)).1.len() == 0,
{
    reveal_strlit(".");
    reveal_strlit("..");
    assert("."@ =~= seq!['.']);
    assert(".."@ =~= seq!['.', '.']);
}

/// A transfer that is added waits at the end of the list, with nothing of it moved, and the log
/// says which way its file goes.
pub proof fn added_transfers_wait(w: AppView, name: Seq<char>)
    ensures
        ({
            let (down, said_down) = after_intent(w, IntentView::RemoteOpenFile(name));
            let (up, said_up) = after_intent(w, IntentView::LocalOpenFile(name));
            let (d, u) = (down.tasks.last(), up.tasks.last());
            &&& down == (AppView {
                tasks: w.tasks.push(d),
                next_task_id: down.next_task_id,
                ..w
            })
            &&& up == (AppView { tasks: w.tasks.push(u), next_task_id: up.next_task_id, ..w })
            &&& down.next_task_id == (w.next_task_id + 1) % 0x1_0000_0000_0000_0000
            &&& up.next_task_id == down.next_task_id
            &&& w.next_task_id > i32::MAX ==> d.task_id == 0 && u.task_id == 0
            &&& d.direction == "↓ 下载"@ && u.direction == "↑ 上传"@
            &&& d == (TaskRowView { direction: d.direction, ..u })
            &&& u.name == name && u.size_str == "…"@ && u.progress_str == "0%"@
            &&& u.speed_str == "—"@ && u.status == "等待"@
            &&& u.part == 0 && u.whole > 0
            &&& said_down.len() == 2 && said_down[1] == AppEffectView::Emit(
                EventView::LogLine { dir: LogDir::Info, text: "已加入下载队列："@ + name },
            )
            &&& said_up.len() == 2 && said_up[1] == AppEffectView::Emit(
                EventView::LogLine { dir: LogDir::Info, text: "已加入上传队列："@ + name },
            )
        }),
{
}

/// What happens is kept in the log in words: a connection and its end, a listing with the number
/// of its entries and its path, and an error with what it was met at.
pub proof fn events_are_put_in_words(
    w: AppView,
    ev: EventView,
    rows: Seq<FileRowView>,
)
    requires
        w.wf(),
    ensures
        ({
            let newest = after_event(w, ev, rows).log_lines[0];
            match ev {
                EventView::Connected => newest == "[信息] "@ + "连接就绪"@,
                EventView::Disconnected { reason } => newest == "[信息] "@ + ("连接已断开："@
                    + reason),
                EventView::Listing { path, entries } => newest == "[信息] "@ + (
                "远程目录已更新（"@ + crate::text::decimal(entries.len() as int)
                    + " 项）："@ + path),
                EventView::LogLine { dir: LogDir::Send, text } => newest == "[命令] "@ + text,
                EventView::LogLine { dir: LogDir::Recv, text } => newest == "[响应] "@ + text,
                EventView::LogLine { dir: LogDir::Info, text } => newest == "[信息] "@ + text,
                EventView::LogLine { dir: LogDir::Error, text } => newest == "[错误] "@ + text,
                EventView::Error { context, message } => newest == "[错误] "@ + (context + "："@
                    + message),
                _ => true,
            }
        }),
{
    let (dir, text) = match ev {
        EventView::Disconnected { reason } => (LogDir::Info, "连接已断开："@ + reason),
        EventView::Listing { path, entries } => (
            LogDir::Info,
            "远程目录已更新（"@ + crate::text::decimal(entries.len() as int) + " 项）："@ + path,
        ),
        EventView::LogLine { dir, text } => (dir, text),
        EventView::Error { context, message } => (LogDir::Error, context + "："@ + message),
        _ => (LogDir::Info, "连接就绪"@),
    };
    log_lines_say_what_they_are_about(dir, dir, text);
    log_keeps_the_newest(w.log_lines, dir, text);
}

/// What cannot be done is said: files are made, renamed and removed only once a directory is
/// shown, and above a root there is nothing. Ending a session and testing the worker ask for just
/// that.
pub proof fn refusals_are_said(w: AppView, from: Seq<char>, to: Seq<char>)
    ensures
        ({
            let asks = |intent: IntentView| after_intent(w, intent);
            let not_ready = (
                w,
                seq![
                    AppEffectView::Emit(
                        EventView::LogLine {
                            dir: LogDir::Error,
                            text: "尚未就绪：请先浏览到有效目录"@,
                        },
                    ),
                ],
            );
            let at_root = (
                w,
                seq![
                    AppEffectView::Emit(
                        EventView::LogLine { dir: LogDir::Info, text: "已在根目录"@ },
                    ),
                ],
            );
            &&& w.remote_path.len() == 0 ==> {
                &&& asks(IntentView::RemoteMkdir(to)) == not_ready
                &&& asks(IntentView::RemoteDelete(to)) == not_ready
                &&& asks(IntentView::RemoteRename(from, to)) == not_ready
            }
            &&& w.local_path.len() == 0 ==> {
                &&& asks(IntentView::LocalMkdir(to)) == not_ready
                &&& asks(IntentView::LocalDelete(to)) == not_ready
                &&& asks(IntentView::LocalRename(from, to)) == not_ready
            }
            &&& crate::ftp::types::parent_of(w.remote_path).is_none() ==> asks(
                IntentView::RemoteUp,
            ) == at_root
            &&& crate::local::parent_of(w.kind, w.local_path).is_none() ==> asks(
                IntentView::LocalUp,
            ) == at_root
            &&& asks(IntentView::Disconnect) == (w, seq![AppEffectView::Ftp(CommandView::Quit)])
            &&& asks(IntentView::TestEvent) == (w, seq![AppEffectView::Ftp(CommandView::Ping)])
        }),
{
}

} // verus!

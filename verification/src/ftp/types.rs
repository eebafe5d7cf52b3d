//! The values that the panels, the workers and the queue exchange, and remote paths.

use vstd::prelude::*;

use crate::queue::{RequestView, TransferRequest};
use crate::text::{chars_of, push_all, rfind, string_of};

verus! {

/// One row of a directory listing.
#[derive(Debug, PartialEq)]
pub struct FileEntry {
    pub name: String,
    pub is_dir: bool,
    pub size: u64,
    pub modified: Option<i64>,
    pub perms: Option<String>,
}

/// What a [`FileEntry`] says.
#[verifier::ext_equal]
pub struct EntryView {
    pub name: Seq<char>,
    pub is_dir: bool,
    pub size: u64,
    pub modified: Option<i64>,
    pub perms: Option<Seq<char>>,
}

impl DeepView for FileEntry {
    type V = EntryView;

    open spec fn deep_view(&self) -> EntryView {
        EntryView {
            name: self.name@,
            is_dir: self.is_dir,
            size: self.size,
            modified: self.modified,
            perms: self.perms.deep_view(),
        }
    }
}

impl Clone for FileEntry {
    fn clone(&self) -> (r: Self)
        ensures
            r.deep_view() == self.deep_view(),
    {
        FileEntry {
            name: self.name.clone(),
            is_dir: self.is_dir,
            size: self.size,
            modified: self.modified,
            perms: match &self.perms {
                Some(p) => Some(p.clone()),
                None => None,
            },
        }
    }
}

impl Default for FileEntry {
    fn default() -> (r: Self)
        ensures
            r.deep_view() == (EntryView {
                name: Seq::empty(),
                is_dir: false,
                size: 0,
                modified: None,
                perms: None,
            }),
    {
        FileEntry { name: String::new(), is_dir: false, size: 0, modified: None, perms: None }
    }
}

/// How data connections are opened.
#[derive(Debug, Clone, Copy, PartialEq, Eq, Structural)]
pub enum PassiveMode {
    Auto,
    Passive,
    ExtendedPassive,
}

impl Default for PassiveMode {
    fn default() -> (r: Self)
        ensures
            r == PassiveMode::Auto,
    {
        PassiveMode::Auto
    }
}

/// How the control connection is protected.
#[derive(Debug, Clone, Copy, PartialEq, Eq, Structural)]
pub enum TlsMode {
    Plain,
    ExplicitFtps,
    ImplicitFtps,
}

impl Default for TlsMode {
    fn default() -> (r: Self)
        ensures
            r == TlsMode::Plain,
    {
        TlsMode::Plain
    }
}

/// How the server writes file names.
#[derive(Debug, Clone, Copy, PartialEq, Eq, Structural)]
pub enum Encoding {
    Utf8,
    Gbk,
}

impl Default for Encoding {
    fn default() -> (r: Self)
        ensures
            r == Encoding::Utf8,
    {
        Encoding::Utf8
    }
}

/// What is needed to open a session.
#[derive(Debug)]
pub struct ConnectConfig {
    pub host: String,
    pub port: u16,
    pub user: String,
    pub password: String,
    pub mode: PassiveMode,
    pub tls: TlsMode,
    pub encoding: Encoding,
}

/// What a [`ConnectConfig`] says.
#[verifier::ext_equal]
pub struct ConfigView {
    pub host: Seq<char>,
    pub port: u16,
    pub user: Seq<char>,
    pub password: Seq<char>,
    pub mode: PassiveMode,
    pub tls: TlsMode,
    pub encoding: Encoding,
}

impl DeepView for ConnectConfig {
    type V = ConfigView;

    open spec fn deep_view(&self) -> ConfigView {
        ConfigView {
            host: self.host@,
            port: self.port,
            user: self.user@,
            password: self.password@,
            mode: self.mode,
            tls: self.tls,
            encoding: self.encoding,
        }
    }
}

impl Clone for ConnectConfig {
    fn clone(&self) -> (r: Self)
        ensures
            r.deep_view() == self.deep_view(),
    {
        ConnectConfig {
            host: self.host.clone(),
            port: self.port,
            user: self.user.clone(),
            password: self.password.clone(),
            mode: self.mode,
            tls: self.tls,
            encoding: self.encoding,
        }
    }
}

impl Default for ConnectConfig {
    fn default() -> (r: Self)
        ensures
            r.deep_view() == (ConfigView {
                host: Seq::empty(),
                port: 21,
                user: Seq::empty(),
                password: Seq::empty(),
                mode: PassiveMode::Auto,
                tls: TlsMode::Plain,
                encoding: Encoding::Utf8,
            }),
    {
        ConnectConfig {
            host: String::new(),
            port: 21,
            user: String::new(),
            password: String::new(),
            mode: PassiveMode::Auto,
            tls: TlsMode::Plain,
            encoding: Encoding::Utf8,
        }
    }
}

/// A request to the worker that owns the control connection.
#[derive(Debug)]
pub enum FtpCommand {
    Connect(ConnectConfig),
    List { path: String },
    Navigate { path: String },
    Mkdir { path: String },
    Delete { paths: Vec<String> },
    Rename { from: String, to: String },
    Chmod { path: String, mode: String },
    EnqueueTransfers { tasks: Vec<TransferRequest> },
    CancelTask { task_id: u64 },
    Ping,
    Quit,
}

/// What an [`FtpCommand`] says.
#[verifier::ext_equal]
pub enum CommandView {
    Connect(ConfigView),
    List { path: Seq<char> },
    Navigate { path: Seq<char> },
    Mkdir { path: Seq<char> },
    Delete { paths: Seq<Seq<char>> },
    Rename { from: Seq<char>, to: Seq<char> },
    Chmod { path: Seq<char>, mode: Seq<char> },
    EnqueueTransfers { tasks: Seq<RequestView> },
    CancelTask { task_id: u64 },
    Ping,
    Quit,
}

impl DeepView for FtpCommand {
    type V = CommandView;

    open spec fn deep_view(&self) -> CommandView {
        match self {
            FtpCommand::Connect(cfg) => CommandView::Connect(cfg.deep_view()),
            FtpCommand::List { path } => CommandView::List { path: path@ },
            FtpCommand::Navigate { path } => CommandView::Navigate { path: path@ },
            FtpCommand::Mkdir { path } => CommandView::Mkdir { path: path@ },
            FtpCommand::Delete { paths } => CommandView::Delete { paths: paths.deep_view() },
            FtpCommand::Rename { from, to } => CommandView::Rename { from: from@, to: to@ },
            FtpCommand::Chmod { path, mode } => CommandView::Chmod { path: path@, mode: mode@ },
            FtpCommand::EnqueueTransfers { tasks } => CommandView::EnqueueTransfers {
                tasks: tasks.deep_view(),
            },
            FtpCommand::CancelTask { task_id } => CommandView::CancelTask { task_id: *task_id },
            FtpCommand::Ping => CommandView::Ping,
            FtpCommand::Quit => CommandView::Quit,
        }
    }
}

/// A request to the worker that owns the local file system.
#[derive(Debug)]
pub enum LocalFsCommand {
    List { path: String },
    Mkdir { path: String },
    Delete { paths: Vec<String> },
    Rename { from: String, to: String },
}

/// What a [`LocalFsCommand`] says.
#[verifier::ext_equal]
pub enum LocalCommandView {
    List { path: Seq<char> },
    Mkdir { path: Seq<char> },
    Delete { paths: Seq<Seq<char>> },
    Rename { from: Seq<char>, to: Seq<char> },
}

impl DeepView for LocalFsCommand {
    type V = LocalCommandView;

    open spec fn deep_view(&self) -> LocalCommandView {
        match self {
            LocalFsCommand::List { path } => LocalCommandView::List { path: path@ },
            LocalFsCommand::Mkdir { path } => LocalCommandView::Mkdir { path: path@ },
            LocalFsCommand::Delete { paths } => LocalCommandView::Delete {
                paths: paths.deep_view(),
            },
            LocalFsCommand::Rename { from, to } => LocalCommandView::Rename { from: from@, to: to@ },
        }
    }
}

/// What a log line is about.
#[derive(Debug, Clone, Copy, PartialEq, Eq, Structural)]
pub enum LogDir {
    Send,
    Recv,
    Info,
    Error,
}

/// The word that marks a log line.
pub open spec fn log_tag(dir: LogDir) -> Seq<char> {
    match dir {
        LogDir::Send => "命令"@,
        LogDir::Recv => "响应"@,
        LogDir::Info => "信息"@,
        LogDir::Error => "错误"@,
    }
}

impl LogDir {
    /// The word that marks a log line.
    pub fn tag(self) -> (r: &'static str)
        ensures
            r@ == log_tag(self),
    {
        match self {
            Self::Send => "命令",
            Self::Recv => "响应",
            Self::Info => "信息",
            Self::Error => "错误",
        }
    }
}

/// How a transfer ended.
#[derive(Debug, PartialEq, Eq)]
pub enum Outcome {
    Completed,
    Failed(String),
    Canceled,
}

/// What an [`Outcome`] says.
#[verifier::ext_equal]
pub enum OutcomeView {
    Completed,
    Failed(Seq<char>),
    Canceled,
}

impl DeepView for Outcome {
    type V = OutcomeView;

    open spec fn deep_view(&self) -> OutcomeView {
        match self {
            Outcome::Completed => OutcomeView::Completed,
            Outcome::Failed(text) => OutcomeView::Failed(text@),
            Outcome::Canceled => OutcomeView::Canceled,
        }
    }
}

impl Clone for Outcome {
    fn clone(&self) -> (r: Self)
        ensures
            r.deep_view() == self.deep_view(),
    {
        match self {
            Outcome::Completed => Outcome::Completed,
            Outcome::Failed(text) => Outcome::Failed(text.clone()),
            Outcome::Canceled => Outcome::Canceled,
        }
    }
}

/// What the workers tell the window.
#[derive(Debug)]
pub enum FtpEvent {
    Connected,
    Listing { path: String, entries: Vec<FileEntry> },
    LocalListing { path: String, entries: Vec<FileEntry> },
    LogLine { dir: LogDir, text: String },
    TaskProgress { task_id: u64, done: u64, total: u64, speed: u64 },
    TaskFinished { task_id: u64, outcome: Outcome },
    Disconnected { reason: String },
    Error { context: String, message: String },
}

/// What an [`FtpEvent`] says.
#[verifier::ext_equal]
pub enum EventView {
    Connected,
    Listing { path: Seq<char>, entries: Seq<EntryView> },
    LocalListing { path: Seq<char>, entries: Seq<EntryView> },
    LogLine { dir: LogDir, text: Seq<char> },
    TaskProgress { task_id: u64, done: u64, total: u64, speed: u64 },
    TaskFinished { task_id: u64, outcome: OutcomeView },
    Disconnected { reason: Seq<char> },
    Error { context: Seq<char>, message: Seq<char> },
}

impl DeepView for FtpEvent {
    type V = EventView;

    open spec fn deep_view(&self) -> EventView {
        match self {
            FtpEvent::Connected => EventView::Connected,
            FtpEvent::Listing { path, entries } => EventView::Listing {
                path: path@,
                entries: entries.deep_view(),
            },
            FtpEvent::LocalListing { path, entries } => EventView::LocalListing {
                path: path@,
                entries: entries.deep_view(),
            },
            FtpEvent::LogLine { dir, text } => EventView::LogLine { dir: *dir, text: text@ },
            FtpEvent::TaskProgress { task_id, done, total, speed } => EventView::TaskProgress {
                task_id: *task_id,
                done: *done,
                total: *total,
                speed: *speed,
            },
            FtpEvent::TaskFinished { task_id, outcome } => EventView::TaskFinished {
                task_id: *task_id,
                outcome: outcome.deep_view(),
            },
            FtpEvent::Disconnected { reason } => EventView::Disconnected { reason: reason@ },
            FtpEvent::Error { context, message } => EventView::Error {
                context: context@,
                message: message@,
            },
        }
    }
}

/// `s` without the slashes at its end.
pub open spec fn unslashed(s: Seq<char>) -> Seq<char>
    decreases s.len(),
{
    if s.len() > 0 && s.last() == '/' {
        unslashed(s.drop_last())
    } else {
        s
    }
}

/// The remote path of `name` in the directory `base`.
pub open spec fn joined(base: Seq<char>, name: Seq<char>) -> Seq<char> {
    unslashed(base) + seq!['/'] + name
}

/// The directory part and the last name of a remote path: what stands before and after the last
/// slash, once the slashes at the end are gone.
pub open spec fn split_at_slash(path: Seq<char>) -> (Seq<char>, Seq<char>) {
    let t = unslashed(path);
    match t.index_of_last('/') {
        Some(i) => (
            if i == 0 {
                seq!['/']
            } else {
                t.take(i)
            },
            t.skip(i + 1),
        ),
        None => (Seq::empty(), t),
    }
}

/// The remote directory that holds `path`, where `path` names one.
pub open spec fn parent_of(path: Seq<char>) -> Option<Seq<char>> {
    if unslashed(path).contains('/') {
        Some(split_at_slash(path).0)
    } else {
        None
    }
}

/// The longest prefix of `s` that does not end with a slash.
fn trim_slashes(s: &[char]) -> (r: &[char])
    ensures
        r@ == unslashed(s@),
{
    let mut n: usize = s.len();
    assert(s@.take(n as int) =~= s@);
    while n > 0 && s[n - 1] == '/'
        invariant
            n <= s.len(),
            unslashed(s@) == unslashed(s@.take(n as int)),
        decreases n,
    {
        assert(s@.take(n as int).drop_last() =~= s@.take(n - 1));
        n -= 1;
    }
    assert(s@.subrange(0, n as int) =~= s@.take(n as int));
    vstd::slice::slice_subrange(s, 0, n)
}

/// The remote path of `name` in the directory `base`.
pub fn join_remote(base: &str, name: &str) -> (r: String)
    ensures
        r@ == joined(base@, name@),
{
    let base = chars_of(base);
    let name = chars_of(name);
    let mut out: Vec<char> = Vec::new();
    push_all(&mut out, trim_slashes(base.as_slice()));
    out.push('/');
    push_all(&mut out, name.as_slice());
    assert(out@ =~= joined(base@, name@));
    string_of(out.as_slice())
}

/// The remote directory that holds `path`; a path without a slash, and the root, have none.
pub fn parent_remote(path: &str) -> (r: Option<String>)
    ensures
        r.deep_view() == parent_of(path@),
{
    let chars = chars_of(path);
    let trimmed = trim_slashes(chars.as_slice());
    proof {
        trimmed@.index_of_last_ensures('/');
    }
    match rfind(trimmed, '/') {
        Some(i) => {
            let dir = string_of(vstd::slice::slice_subrange(trimmed, 0, if i == 0 { 1 } else { i }));
            assert(dir@ =~= split_at_slash(path@).0);
            Some(dir)
        },
        None => None,
    }
}

/// The directory part and the last name of a remote path.
pub fn split_remote(path: &str) -> (r: (String, String))
    ensures
        r.deep_view() == split_at_slash(path@),
{
    let chars = chars_of(path);
    let trimmed = trim_slashes(chars.as_slice());
    let n: usize = trimmed.len();
    proof {
        trimmed@.index_of_last_ensures('/');
    }
    match rfind(trimmed, '/') {
        Some(i) => {
            let dir = string_of(vstd::slice::slice_subrange(trimmed, 0, if i == 0 { 1 } else { i }));
            let name = string_of(vstd::slice::slice_subrange(trimmed, i + 1, n));
            assert(dir@ =~= split_at_slash(path@).0);
            assert(name@ =~= split_at_slash(path@).1);
            (dir, name)
        },
        None => (String::new(), string_of(trimmed)),
    }
}

proof fn lemma_unslashed_joined(base: Seq<char>, name: Seq<char>)
    requires
        name.len() > 0,
        !name.contains('/'),
    ensures
        unslashed(joined(base, name)) == joined(base, name),
        joined(base, name).index_of_last('/') == Some(unslashed(base).len() as int),
{
    let p = joined(base, name);
    let n = unslashed(base).len() as int;
    assert(p.last() == name.last());
    assert(name.contains(name.last()));
    assert(p[n] == '/');
    p.index_of_last_ensures('/');
    let k = p.index_of_last('/').unwrap();
    assert(p.contains('/'));
    if k > n {
        assert(p[k] == name[k - n - 1]);
        assert(name.contains('/'));
    }
}

/// Splitting the path of a name in a directory gives back the name and the directory, for every
/// non-empty name without a slash. The directory comes back without the slashes at its end, and
/// as `/` where nothing else is left of it.
pub proof fn split_undoes_join(base: Seq<char>, name: Seq<char>)
    requires
        name.len() > 0,
        !name.contains('/'),
    ensures
        split_at_slash(joined(base, name)) == (
            if unslashed(base).len() == 0 {
                seq!['/']
            } else {
                unslashed(base)
            },
            name,
        ),
{
    lemma_unslashed_joined(base, name);
    let n = unslashed(base).len() as int;
    assert(joined(base, name).take(n) =~= unslashed(base));
    assert(joined(base, name).skip(n + 1) =~= name);
}

/// The parent of a name's path in a directory is that directory.
pub proof fn parent_undoes_join(base: Seq<char>, name: Seq<char>)
    requires
        name.len() > 0,
        !name.contains('/'),
    ensures
        parent_of(joined(base, name)) == Some(
            if unslashed(base).len() == 0 {
                seq!['/']
            } else {
                unslashed(base)
            },
        ),
{
    split_undoes_join(base, name);
    lemma_unslashed_joined(base, name);
    assert(joined(base, name)[unslashed(base).len() as int] == '/');
}

/// Slashes at the end of the directory do not change the path of a name in it.
pub proof fn join_ignores_trailing_slash(base: Seq<char>, name: Seq<char>)
    ensures
        joined(base.push('/'), name) == joined(base, name),
{
    assert(base.push('/').drop_last() =~= base);
}

proof fn lemma_unslashed(s: Seq<char>)
    ensures
        unslashed(s).len() <= s.len(),
        unslashed(s) == s.take(unslashed(s).len() as int),
        unslashed(s).len() > 0 ==> unslashed(s).last() != '/',
        forall|i: int| unslashed(s).len() <= i < s.len() ==> #[trigger] s[i] == '/',
    decreases s.len(),
{
    if s.len() > 0 && s.last() == '/' {
        let rest = s.drop_last();
        lemma_unslashed(rest);
        let n = unslashed(s).len() as int;
        assert(rest.take(n) =~= s.take(n));
        assert forall|i: int| n <= i < s.len() implies #[trigger] s[i] == '/' by {
            if i < rest.len() {
                assert(rest[i] == s[i]);
            }
        }
    } else {
        assert(s.take(s.len() as int) =~= s);
    }
}

/// A remote path is its directory part, a slash and its last name, but for slashes at its end; the
/// slash of the root is not written twice. The name holds no slash, and a path without one is a
/// name alone.
pub proof fn split_parts_make_up_the_path(path: Seq<char>)
    ensures
        ({
            let t = unslashed(path);
            let (dir, name) = split_at_slash(path);
            &&& t.len() <= path.len() && t == path.take(t.len() as int)
            &&& forall|i: int| t.len() <= i < path.len() ==> #[trigger] path[i] == '/'
            &&& t.len() > 0 ==> t.last() != '/' && name.len() > 0
            &&& !name.contains('/')
            &&& t.contains('/') ==> dir.len() > 0 && (t == dir + seq!['/'] + name || (dir
                == seq!['/'] && t == dir + name))
            &&& !t.contains('/') ==> dir.len() == 0 && name == t
        }),
{
    lemma_unslashed(path);
    let t = unslashed(path);
    let (dir, name) = split_at_slash(path);
    t.index_of_last_ensures('/');
    match t.index_of_last('/') {
        Some(i) => {
            assert(t.last() != '/');
            if name.contains('/') {
                let k = choose|k: int| 0 <= k < name.len() && name[k] == '/';
                assert(t[i + 1 + k] == '/');
            }
            if i == 0 {
                assert(t =~= dir + name);
            } else {
                assert(t =~= dir + seq!['/'] + name);
            }
        },
        None => {},
    }
}

/// A slash stands between a remote directory and what it holds, and going up takes the name and
/// that slash away; the root, and a name alone, have nothing above them.
pub proof fn slashes_part_remote_names(dir: Seq<char>, name: Seq<char>)
    requires
        dir.len() > 0 ==> dir.last() != '/',
        name.len() > 0,
        !name.contains('/'),
    ensures
        joined(dir, name) == dir + seq!['/'] + name,
        joined(seq!['/'], name) == seq!['/'] + name,
        dir.len() > 0 ==> parent_of(dir + seq!['/'] + name) == Some(dir),
        parent_of(seq!['/'] + name) == Some(seq!['/']),
        parent_of(seq!['/']).is_none(),
        parent_of(name).is_none(),
{
    let root = seq!['/'];
    parent_undoes_join(dir, name);
    parent_undoes_join(Seq::empty(), name);
    assert(root.drop_last() =~= Seq::<char>::empty());
    assert(unslashed(root) == Seq::<char>::empty());
    assert(joined(root, name) =~= root + name);
    assert(joined(Seq::empty(), name) =~= root + name);
    assert(name.contains(name.last()));
}

} // verus!

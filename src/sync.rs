//! Reconciliation of a project document with the issue tracker.
//!
//! The decisions are made here; reading and writing files and calling the
//! tracker are left to the caller, which feeds each outcome back as an event.
use vstd::prelude::*;
use crate::error::ParseError;
use crate::parser::{
    task_file_read, content_start, document_read, item_is, tasks_from, body_of, parse_project_file, parse_task_file, separator_from, task_markdown, task_separators,
    title_of,
};
use crate::text::{
    chars_of, find_exec, lemma_find_bounds, replace_all, replace_all_exec, text_eq, trim,
    trim_bounds,
};
use crate::types::{
    fields_written, text_is, task_config_of, task_fields_ok, written_from, ProjectMd, TaskFile,
    TaskFileConfig, TaskItem, TaskStatus,
};
use crate::yaml::{front_matter_of, lookup, mapping_value, yaml_text_of, YamlNode};

verus! {

/// An instant: whole seconds since the Unix epoch and the nanoseconds past them.
#[derive(Debug, Clone, Copy, PartialEq, Eq, Structural)]
pub struct Timestamp {
    pub seconds: i64,
    pub nanos: u32,
}

/// `a` comes after `b`.
pub open spec fn later(a: Timestamp, b: Timestamp) -> bool {
    a.seconds > b.seconds || (a.seconds == b.seconds && a.nanos > b.nanos)
}

/// The instant that an RFC 3339 text denotes, if it is one.
pub uninterp spec fn rfc3339_instant(s: Seq<char>) -> Option<(i64, u32)>;

/// Relies on chrono's `DateTime::parse_from_rfc3339`, read as seconds since
/// the epoch and the nanoseconds past them; the result depends on the text alone.
#[verifier::external_body]
fn parse_rfc3339(s: &str) -> (r: Option<(i64, u32)>)
    ensures
        r == rfc3339_instant(s@),
{
    match chrono::DateTime::parse_from_rfc3339(s) {
        Ok(d) => Some((d.timestamp(), d.timestamp_subsec_nanos())),
        Err(_) => None,
    }
}

/// Relies on chrono's `Utc::now` and `to_rfc3339`: the time now, as RFC 3339
/// text, which `parse_from_rfc3339` reads.
#[verifier::external_body]
fn now_rfc3339() -> (r: String)
    ensures
        rfc3339_instant(r@) is Some,
{
    chrono::Utc::now().to_rfc3339()
}

/// Why one task, or the whole run, could not be synchronised.
#[derive(Debug)]
pub enum SyncError {
    /// A document or task file could not be read as such.
    Parse(ParseError),
    /// Reading or writing a file failed.
    Io(String),
    /// The tracker refused a call.
    Backend(String),
    /// A stored `updated_at` is not an RFC 3339 timestamp.
    Timestamp,
    /// The project names a backend other than `github`.
    UnsupportedBackend,
    /// The tracker reported an issue number of zero.
    InvalidIssueNumber,
    /// An event came that the run was not waiting for.
    UnexpectedEvent,
}

/// `a` comes after `b`.
pub fn is_modified_after(a: Timestamp, b: Timestamp) -> (r: bool)
    ensures
        r == later(a, b),
{
    a.seconds > b.seconds || (a.seconds == b.seconds && a.nanos > b.nanos)
}

/// Whether a task changed since it was last synchronised: it did where no
/// `updated_at` is stored, or where the file was modified after it.
pub open spec fn needs_sync(stored: Option<String>, modified: Timestamp) -> Result<bool, ()> {
    match stored {
        None => Ok(true),
        Some(s) => match rfc3339_instant(s@) {
            None => Err(()),
            Some((sec, ns)) => Ok(later(modified, Timestamp { seconds: sec, nanos: ns })),
        },
    }
}

/// Whether a task file modified at `modified` has to be sent again.
pub fn should_sync_task(config: &TaskFileConfig, modified: Timestamp) -> (r: Result<bool, SyncError>)
    ensures
        needs_sync(config.updated_at, modified) matches Ok(b) ==> r matches Ok(x) && x == b,
        needs_sync(config.updated_at, modified) is Err ==> r matches Err(SyncError::Timestamp),
{
    match &config.updated_at {
        None => Ok(true),
        Some(s) => match parse_rfc3339(s.as_str()) {
            None => Err(SyncError::Timestamp),
            Some((sec, ns)) => Ok(is_modified_after(modified, Timestamp { seconds: sec, nanos: ns })),
        },
    }
}

/// What was done for one task.
#[derive(Debug, Clone, Copy, PartialEq, Eq, Structural)]
pub enum SyncAction {
    Created(u64),
    Updated(u64),
    Skipped,
}

/// What a task asks of the tracker.
#[derive(Debug)]
pub enum TaskPlan {
    Create { title: String, body: String, labels: Vec<String> },
    Update { number: u64, title: String, body: String, labels: Vec<String> },
    Skip,
}

/// The labels of a task: its tags, or none.
pub open spec fn labels_of(c: TaskFileConfig) -> Seq<String> {
    match c.tags {
        Some(t) => t@,
        None => Seq::empty(),
    }
}

/// What a task asks for, given its file and when that was last modified.
pub open spec fn plan_matches(status: TaskStatus, file: TaskFile, modified: Timestamp, p: TaskPlan) -> bool {
    match status {
        TaskStatus::New => p matches TaskPlan::Create { title, body, labels } && title == file.title
            && body == file.body && labels@ == labels_of(file.config),
        TaskStatus::Existing(n) => match needs_sync(file.config.updated_at, modified) {
            Ok(false) => p is Skip,
            _ => p matches TaskPlan::Update { number, title, body, labels } && number == n && title
                == file.title && body == file.body && labels@ == labels_of(file.config),
        },
    }
}

/// A plan asks the tracker for what the task's status allows: a new issue
/// for a new task, an update of its own issue for an existing one.
pub open spec fn plan_fits(status: TaskStatus, plan: Result<TaskPlan, SyncError>) -> bool {
    match plan {
        Ok(TaskPlan::Create { .. }) => status is New,
        Ok(TaskPlan::Update { number, .. }) => status == TaskStatus::Existing(number),
        _ => true,
    }
}

/// The document names issue `n` but the task file records another id, or none.
pub open spec fn id_mismatch(status: TaskStatus, file: TaskFile) -> bool {
    status matches TaskStatus::Existing(n) && file.config.issue_id != Some(n)
}

/// Decides what to ask of the tracker for one task. A new task is created;
/// an existing one is updated unless its file is unchanged since the stored
/// `updated_at`.
pub fn plan_task(status: TaskStatus, file: TaskFile, modified: Timestamp) -> (r: Result<
    TaskPlan,
    SyncError,
>)
    ensures
        r matches Ok(p) ==> plan_matches(status, file, modified, p),
        r is Err <==> (status is Existing && needs_sync(file.config.updated_at, modified) is Err),
        r is Err ==> r matches Err(SyncError::Timestamp),
        plan_fits(status, r),
{
    let ghost f = file;
    let go = match status {
        TaskStatus::New => Ok(true),
        TaskStatus::Existing(_) => should_sync_task(&file.config, modified),
    };
    let labels = match file.config.tags {
        Some(t) => t,
        None => Vec::new(),
    };
    match status {
        TaskStatus::New => Ok(TaskPlan::Create { title: file.title, body: file.body, labels }),
        TaskStatus::Existing(n) => {
            match go {
                Err(e) => Err(e),
                Ok(false) => Ok(TaskPlan::Skip),
                Ok(true) => Ok(
                    TaskPlan::Update { number: n, title: file.title, body: file.body, labels },
                ),
            }
        },
    }
}

/// The configuration once a task is synchronised: the issue id is set,
/// `updated_at` is `now`, and so is `created_at` where it was absent.
/// Everything else is kept.
pub fn stamped_config(c: TaskFileConfig, issue_id: u64, now: &str) -> (r:
    TaskFileConfig)
    ensures
        r.issue_id == Some(issue_id),
        r.updated_at matches Some(u) && u@ == now@,
        c.created_at is None ==> (r.created_at matches Some(t) && t@ == now@),
        c.created_at is Some ==> r.created_at == c.created_at,
        r.task_type == c.task_type,
        r.tags == c.tags,
        r.extra == c.extra,
        is_stamped(c, r, issue_id, now@),
{
    let created_at = if c.created_at.is_none() {
        Some(now.to_owned())
    } else {
        c.created_at
    };
    TaskFileConfig {
        issue_id: Some(issue_id),
        task_type: c.task_type,
        tags: c.tags,
        created_at,
        updated_at: Some(now.to_owned()),
        extra: c.extra,
    }
}

/// A task file put together from a YAML block and the text after its second separator.
pub open spec fn assembled(yaml: Seq<char>, rest: Seq<char>) -> Seq<char> {
    "---\n"@ + trim(yaml) + "\n---\n"@ + rest
}

/// Puts a task file together: a `---` line, the YAML block, a `---` line,
/// then `rest` unchanged.
pub fn assemble_task_file(yaml: &str, rest: &str) -> (r: String)
    ensures
        r@ == assembled(yaml@, rest@),
{
    let cs = chars_of(yaml);
    let (a, b) = trim_bounds(&cs, 0, cs.len());
    assert(cs@.subrange(0, cs@.len() as int) =~= cs@);
    assert(cs@.subrange(0, cs@.len() as int).subrange(a as int, b as int) =~= cs@.subrange(
        a as int,
        b as int,
    ));
    let mut out = String::new();
    out.append("---\n");
    out.append(yaml.substring_char(a, b));
    out.append("\n---\n");
    out.append(rest);
    out
}

/// `r` is `c` stamped after a sync with `issue_id` at `now` (see `stamped_config`).
pub open spec fn is_stamped(c: TaskFileConfig, r: TaskFileConfig, issue_id: u64, now: Seq<char>) -> bool {
    &&& r.issue_id == Some(issue_id)
    &&& r.updated_at matches Some(u) && u@ == now
    &&& c.created_at is None ==> (r.created_at matches Some(t) && t@ == now)
    &&& c.created_at is Some ==> r.created_at == c.created_at
    &&& r.task_type == c.task_type
    &&& r.tags == c.tags
    &&& r.extra == c.extra
}

/// `w` are the entries written for the configuration that the entries `e`
/// give, once stamped with `issue_id` at `now`.
pub open spec fn stamped_entries(e: Seq<(String, YamlNode)>, issue_id: u64, now: Seq<char>, w: Seq<
    (String, YamlNode),
>) -> bool {
    exists|c: TaskFileConfig, c2: TaskFileConfig|
        #[trigger] is_stamped(c, c2, issue_id, now) && task_config_of(e, c) && c.wf()
            && written_from(c2, w) && fields_written(c2, w)
}

/// What rewriting the task file `s` gives: the block of its front matter
/// read, stamped and written again by serde_yaml, between `---` lines, then
/// the text after its second separator unchanged.
pub open spec fn rewrite_read(s: Seq<char>, issue_id: u64, now: Seq<char>, r: Result<String, SyncError>) -> bool {
    match task_separators(s) {
        None => r == Err::<String, SyncError>(SyncError::Parse(ParseError::MissingSeparator)),
        Some((k1, k2)) => match front_matter_of(trim(s.subrange(k1 + 3, k2))) {
            Err(x) => r == Err::<String, SyncError>(SyncError::Parse(x)),
            Ok(e) => if !task_fields_ok(e) {
                r == Err::<String, SyncError>(SyncError::Parse(ParseError::InvalidField))
            } else {
                exists|w: Seq<(String, YamlNode)>|
                    #[trigger] stamped_entries(e, issue_id, now, w) && match yaml_text_of(
                        mapping_value(w),
                    ) {
                        Some(y) => r matches Ok(t) && t@ == assembled(
                            y,
                            s.subrange(k2 + 3, s.len() as int),
                        ),
                        None => r == Err::<String, SyncError>(SyncError::Parse(ParseError::Yaml)),
                    }
            },
        },
    }
}

/// Rewrites a task file after a sync: its front matter gets the issue id and
/// the timestamps (see `stamped_config`); the text after the second
/// separator is kept as it is.
pub fn update_task_file_with_metadata(content: &str, issue_id: u64, now: &str) -> (r:
    Result<String, SyncError>)
    ensures
        rewrite_read(content@, issue_id, now@, r),
{
    let file = match parse_task_file(content) {
        Ok(f) => f,
        Err(e) => return Err(SyncError::Parse(e)),
    };
    let ghost c0 = file.config;
    let config = stamped_config(file.config, issue_id, now);
    let ghost c2 = config;
    let fm = config.to_front_matter();
    let ghost w = fm.entries@;
    proof {
        let (k1, k2) = task_separators(content@)->Some_0;
        let e = front_matter_of(trim(content@.subrange(k1 + 3, k2)))->Ok_0;
        assert(is_stamped(c0, c2, issue_id, now@));
        assert(stamped_entries(e, issue_id, now@, w));
    }
    let yaml = match fm.render() {
        Ok(y) => y,
        Err(e) => return Err(SyncError::Parse(e)),
    };
    let cs = chars_of(content);
    let dashes = chars_of("---");
    proof {
        reveal_strlit("---");
        lemma_find_bounds(cs@, dashes@, 0);
    }
    let k1 = match find_exec(&cs, &dashes, 0) {
        None => return Err(SyncError::Parse(ParseError::MissingSeparator)),
        Some(k) => k,
    };
    let n = cs.len();
    assert(dashes@.len() == 3);
    assert(k1 + 3 <= n);
    proof {
        lemma_find_bounds(cs@, dashes@, k1 + 3);
    }
    let k2 = match find_exec(&cs, &dashes, k1 + 3) {
        None => return Err(SyncError::Parse(ParseError::MissingSeparator)),
        Some(k) => k,
    };
    assert(k2 + 3 <= n);
    let r = assemble_task_file(yaml.as_str(), content.substring_char(k2 + 3, cs.len()));
    assert(r@ == assembled(yaml@, content@.subrange(k2 + 3, content@.len() as int)));
    Ok(r)
}

pub open spec fn digit_char(d: int) -> char {
    seq!['0', '1', '2', '3', '4', '5', '6', '7', '8', '9'][d]
}

/// The decimal digits of `n`.
pub open spec fn decimal(n: nat) -> Seq<char>
    decreases n,
{
    if n < 10 {
        seq![digit_char(n as int)]
    } else {
        decimal(n / 10) + seq![digit_char((n % 10) as int)]
    }
}

/// `n` in decimal.
pub fn decimal_string(n: u64) -> (r: String)
    ensures
        r@ == decimal(n as nat),
    decreases n,
{
    let table = "0123456789";
    proof {
        reveal_strlit("0123456789");
    }
    if n < 10 {
        let d = n as usize;
        let s = table.substring_char(d, d + 1).to_owned();
        assert(s@ =~= seq![digit_char(n as int)]);
        s
    } else {
        let mut s = decimal_string(n / 10);
        let d = (n % 10) as usize;
        s.append(table.substring_char(d, d + 1));
        assert(s@ =~= decimal(n as nat));
        s
    }
}

/// The bullet text of a new task with this path.
pub open spec fn new_bullet(path: Seq<char>) -> Seq<char> {
    "* [new] - "@ + path + " -"@
}

/// The bullet text of a task with this path tracked as issue `n`.
pub open spec fn numbered_bullet(n: nat, path: Seq<char>) -> Seq<char> {
    "* [#"@ + decimal(n) + "] - "@ + path + " -"@
}

/// The document once each created task's bullet has been given its issue
/// number, in the order the tasks were created.
pub open spec fn patched(s: Seq<char>, created: Seq<(String, u64)>) -> Seq<char>
    decreases created.len(),
{
    if created.len() == 0 {
        s
    } else {
        replace_all(
            patched(s, created.drop_last()),
            new_bullet(created.last().0@),
            numbered_bullet(created.last().1 as nat, created.last().0@),
        )
    }
}

/// Gives each created task's bullet its issue number: every occurrence of
/// `* [new] - <path> -` becomes `* [#<number>] - <path> -`; nothing else changes.
pub fn update_project_file(content: &str, created: &Vec<(String, u64)>) -> (r: String)
    ensures
        r@ == patched(content@, created@),
{
    let mut out = content.to_owned();
    let mut i: usize = 0;
    assert(created@.subrange(0, 0) =~= Seq::<(String, u64)>::empty());
    while i < created.len()
        invariant
            i <= created@.len(),
            out@ == patched(content@, created@.subrange(0, i as int)),
        decreases created.len() - i,
    {
        let path = created[i].0.as_str();
        let mut pat = String::new();
        pat.append("* [new] - ");
        pat.append(path);
        pat.append(" -");
        let mut rep = String::new();
        rep.append("* [#");
        rep.append(decimal_string(created[i].1).as_str());
        rep.append("] - ");
        rep.append(path);
        rep.append(" -");
        proof {
            reveal_strlit("* [new] - ");
            assert(pat@.len() > 0);
            assert(created@.subrange(0, i + 1).drop_last() =~= created@.subrange(0, i as int));
            assert(created@.subrange(0, i + 1).last() == created@[i as int]);
        }
        out = replace_all_exec(out.as_str(), pat.as_str(), rep.as_str());
        i = i + 1;
    }
    assert(created@.subrange(0, created@.len() as int) =~= created@);
    out
}

/// The outcome of a run, task by task: each task's path with what was done,
/// or with why it failed.
#[derive(Debug)]
pub struct SyncResult {
    pub created: Vec<(String, u64)>,
    pub updated: Vec<(String, u64)>,
    pub skipped: Vec<String>,
    pub errors: Vec<(String, SyncError)>,
}

impl SyncResult {
    pub open spec fn count(&self) -> nat {
        self.created@.len() + self.updated@.len() + self.skipped@.len() + self.errors@.len()
    }

    /// Every list of `self` begins with the same list of `before`.
    pub open spec fn extends(&self, before: SyncResult) -> bool {
        &&& before.created@.is_prefix_of(self.created@)
        &&& before.updated@.is_prefix_of(self.updated@)
        &&& before.skipped@.is_prefix_of(self.skipped@)
        &&& before.errors@.is_prefix_of(self.errors@)
    }

    /// Whether any task failed.
    pub fn has_errors(&self) -> (r: bool)
        ensures
            r == (self.errors@.len() > 0),
    {
        self.errors.len() > 0
    }
}

/// What the caller is asked to do next.
#[derive(Debug)]
pub enum SyncCommand {
    /// Read the file at `path`, with the instant it was last modified.
    ReadTaskFile { path: String },
    /// Write `contents` to the file at `path`.
    WriteTaskFile { path: String, contents: String },
    /// Open an issue.
    CreateIssue { title: String, body: String, labels: Vec<String> },
    /// Overwrite an issue.
    UpdateIssue { number: u64, title: String, body: String, labels: Vec<String> },
    /// Replace the project document's text.
    WriteProjectFile { contents: String },
    /// Nothing is left to do.
    Finished,
}

/// The outcome of the last command.
#[derive(Debug)]
pub enum SyncEvent {
    TaskFileRead { contents: String, modified: Timestamp },
    IssueCreated { number: u64 },
    IssueUpdated { number: u64 },
    Written,
    Failed { message: String },
}

/// What a run is waiting for.
pub enum Awaiting {
    TaskFile,
    IdWrite,
    Tracker,
    MetadataWrite,
    DocumentWrite,
    Nothing,
}

/// Where a run stands within the current task.
enum Stage {
    /// Waiting for the task file.
    Reading,
    /// Waiting for the task file to be written with its issue id; the plan comes next.
    Reconciling { contents: String, plan: Result<TaskPlan, SyncError> },
    /// Waiting for the tracker.
    Calling { contents: String },
    /// Waiting for the task file to be written with its new metadata.
    Stamping { action: SyncAction },
    /// Waiting for the project document to be written.
    WritingDocument,
    Done,
}

/// `root` and `path` joined with a `/`; an absolute path or an empty root
/// leaves the path as it is.
pub open spec fn joined(root: Seq<char>, path: Seq<char>) -> Seq<char> {
    if root.len() == 0 || (path.len() > 0 && path[0] == '/') {
        path
    } else if root.last() == '/' {
        root + path
    } else {
        root + seq!['/'] + path
    }
}

/// `r` is the command that `b` goes on with once a task has its outcome:
/// reading the next task's file, else writing the document where an issue
/// was created, else nothing.
pub open spec fn moved_on(b: SyncRun, r: Result<SyncCommand, SyncError>) -> bool {
    r matches Ok(c) && if b.position() < b.task_count() {
        c matches SyncCommand::ReadTaskFile { path } && path@ == b.path_of(b.position() as int)
            && b.awaiting() is TaskFile
    } else if b.result().created@.len() > 0 {
        c matches SyncCommand::WriteProjectFile { contents } && contents@ == patched(
            b.document(),
            b.result().created@,
        ) && b.awaiting() is DocumentWrite
    } else {
        c is Finished && b.finished()
    }
}

/// The current task of `a` failed with `e`: that is its one entry, and `b`
/// went on to the next.
pub open spec fn error_recorded(a: SyncRun, b: SyncRun, r: Result<SyncCommand, SyncError>, e: SyncError) -> bool {
    &&& b.position() == a.position() + 1
    &&& b.result().errors@ == a.result().errors@.push((a.task(a.position() as int).path, e))
    &&& b.result().created == a.result().created
    &&& b.result().updated == a.result().updated
    &&& b.result().skipped == a.result().skipped
    &&& moved_on(b, r)
}

/// The current task of `a` was skipped: that is its one entry, with no call
/// and no write for it, and `b` went on to the next.
pub open spec fn skip_recorded(a: SyncRun, b: SyncRun, r: Result<SyncCommand, SyncError>) -> bool {
    &&& b.position() == a.position() + 1
    &&& b.result().skipped@ == a.result().skipped@.push(a.task(a.position() as int).path)
    &&& b.result().created == a.result().created
    &&& b.result().updated == a.result().updated
    &&& b.result().errors == a.result().errors
    &&& moved_on(b, r)
}

/// Two lists of strings with the same characters, item by item.
pub open spec fn same_texts(x: Seq<String>, y: Seq<String>) -> bool {
    x.len() == y.len() && forall|i: int| 0 <= i < x.len() ==> (#[trigger] x[i])@ == y[i]@
}

/// What the plan `p` gives: a call to the tracker, a skip, or an error.
pub open spec fn plan_applied(p: Result<TaskPlan, SyncError>, a: SyncRun, b: SyncRun, r: Result<SyncCommand, SyncError>) -> bool {
    match p {
        Ok(TaskPlan::Create { title, body, labels }) => r == Ok::<SyncCommand, SyncError>(
            SyncCommand::CreateIssue { title, body, labels },
        ) && b.calling() && b.position() == a.position() && b.result() == a.result()
            && b.held_text() == a.held_text(),
        Ok(TaskPlan::Update { number, title, body, labels }) => r == Ok::<SyncCommand, SyncError>(
            SyncCommand::UpdateIssue { number, title, body, labels },
        ) && b.calling() && b.position() == a.position() && b.result() == a.result()
            && b.held_text() == a.held_text(),
        Ok(TaskPlan::Skip) => skip_recorded(a, b, r),
        Err(e) => error_recorded(a, b, r, e),
    }
}

/// The plan `p` is the one for a task whose file reads as `f`, last modified
/// at `modified`, by characters.
pub open spec fn plan_for(st: TaskStatus, f: TaskFile, modified: Timestamp, p: Result<TaskPlan, SyncError>) -> bool {
    match st {
        TaskStatus::New => p matches Ok(TaskPlan::Create { title, body, labels }) && title@
            == f.title@ && body@ == f.body@ && same_texts(labels@, labels_of(f.config)),
        TaskStatus::Existing(n) => match needs_sync(f.config.updated_at, modified) {
            Ok(false) => p matches Ok(TaskPlan::Skip),
            Ok(true) => p matches Ok(TaskPlan::Update { number, title, body, labels }) && number
                == n && title@ == f.title@ && body@ == f.body@ && same_texts(
                labels@,
                labels_of(f.config),
            ),
            Err(_) => p matches Err(SyncError::Timestamp),
        },
    }
}

/// What a task whose file `text` reads as `f`, last modified at `modified`,
/// gives when its id needs no rewrite: the call of `plan_task`, its skip or
/// its error, by characters.
pub open spec fn read_applied(st: TaskStatus, f: TaskFile, modified: Timestamp, text: Seq<char>, a: SyncRun, b: SyncRun, r: Result<SyncCommand, SyncError>) -> bool {
    match st {
        TaskStatus::New => r matches Ok(SyncCommand::CreateIssue { title, body, labels }) && title@
            == f.title@ && body@ == f.body@ && same_texts(labels@, labels_of(f.config))
            && b.calling() && b.position() == a.position() && b.result() == a.result()
            && b.held_text() == text,
        TaskStatus::Existing(n) => match needs_sync(f.config.updated_at, modified) {
            Ok(false) => skip_recorded(a, b, r),
            Ok(true) => r matches Ok(SyncCommand::UpdateIssue { number, title, body, labels })
                && number == n && title@ == f.title@ && body@ == f.body@ && same_texts(
                labels@,
                labels_of(f.config),
            ) && b.calling() && b.position() == a.position() && b.result() == a.result()
                && b.held_text() == text,
            Err(_) => error_recorded(a, b, r, SyncError::Timestamp),
        },
    }
}

/// Two tasks with the same status, path and description.
pub open spec fn same_task(a: TaskItem, b: TaskItem) -> bool {
    a.status == b.status && a.path@ == b.path@ && a.description@ == b.description@
}

/// Runs the reconciliation of a project with its tracker.
pub struct SyncEngine {
    project_root: String,
}

impl SyncEngine {
    pub fn new(project_root: String) -> (r: SyncEngine)
        ensures
            r.root()@ == project_root@,
    {
        SyncEngine { project_root }
    }

    pub closed spec fn root(&self) -> String {
        self.project_root
    }

    /// Where a task's file lies.
    pub fn task_file_path(&self, item: &TaskItem) -> (r: String)
        ensures
            r@ == joined(self.root()@, item.path@),
    {
        let root = self.project_root.as_str();
        let path = item.path.as_str();
        let rc = chars_of(root);
        let pc = chars_of(path);
        if rc.len() == 0 || (pc.len() > 0 && pc[0] == '/') {
            return item.path.clone();
        }
        let mut out = self.project_root.clone();
        if rc[rc.len() - 1] != '/' {
            out.append("/");
            proof {
                reveal_strlit("/");
            }
        }
        out.append(path);
        proof {
            if rc@.last() != '/' {
                assert("/"@ =~= seq!['/']);
            }
        }
        out
    }

    /// Begins a sync run on the text of the project document. It fails where the
    /// document cannot be read or names a backend other than `github`.
    pub fn sync(&self, document: String) -> (r: Result<(SyncRun, SyncCommand), SyncError>)
        ensures
            forall|x: ParseError|
                #[trigger] document_read(document@, Err(x)) ==> r == Err::<
                    (SyncRun, SyncCommand),
                    SyncError,
                >(SyncError::Parse(x)),
            forall|d: ProjectMd| #[trigger]
                document_read(document@, Ok(d)) ==> if d.config.backend@ == "github"@ {
                    r matches Ok((run, _)) && run.document() == document@ && run.task_count()
                        == d.tasks@.len() && forall|i: int|
                        0 <= i < d.tasks@.len() ==> same_task(#[trigger] run.task(i), d.tasks@[i])
                } else {
                    r == Err::<(SyncRun, SyncCommand), SyncError>(SyncError::UnsupportedBackend)
                },
            r matches Ok((run, cmd)) ==> run.wf() && run.progress_ok() && run.position() == 0
                && run.result().count() == 0 && run.result().created@.len() == 0
                && (run.task_count() == 0 ==> cmd is Finished && run.finished())
                && (run.task_count() > 0 ==> (cmd matches SyncCommand::ReadTaskFile { path }
                && path@ == joined(self.root()@, run.task(0).path@))),
    {
        let project = match parse_project_file(document.as_str()) {
            Ok(p) => p,
            Err(e) => return Err(SyncError::Parse(e)),
        };
        let ghost doc = project;
        let ProjectMd { config, tasks } = project;
        if !text_eq(config.backend.as_str(), "github") {
            return Err(SyncError::UnsupportedBackend);
        }
        proof {
            assert forall|d: ProjectMd| #[trigger] document_read(document@, Ok(d)) implies
                forall|i: int| 0 <= i < d.tasks@.len() ==> same_task(#[trigger] tasks@[i], d.tasks@[i]) by {
                assert forall|i: int| 0 <= i < d.tasks@.len() implies same_task(#[trigger] tasks@[i], d.tasks@[i]) by {
                    let p = separator_from(document@, 0)->Some_0;
                    let ts = tasks_from(document@, content_start(document@, p))->Ok_0;
                    assert(item_is(doc.tasks@[i], ts[i]));
                    assert(item_is(d.tasks@[i], ts[i]));
                }
            }
        }
        let mut run = SyncRun {
            root: SyncEngine { project_root: self.project_root.clone() },
            document,
            tasks,
            index: 0,
            stage: Stage::Reading,
            result: SyncResult {
                created: Vec::new(),
                updated: Vec::new(),
                skipped: Vec::new(),
                errors: Vec::new(),
            },
        };
        if run.tasks.len() == 0 {
            run.stage = Stage::Done;
            return Ok((run, SyncCommand::Finished));
        }
        let path = run.root.task_file_path(&run.tasks[0]);
        Ok((run, SyncCommand::ReadTaskFile { path }))
    }
}

/// One reconciliation run, driven by events.
pub struct SyncRun {
    root: SyncEngine,
    document: String,
    tasks: Vec<TaskItem>,
    index: usize,
    stage: Stage,
    result: SyncResult,
}

impl SyncRun {
    pub closed spec fn wf(&self) -> bool {
        &&& self.index <= self.tasks@.len()
        &&& self.result.count() == self.index
        &&& (self.stage is WritingDocument || self.stage is Done) <==> self.index == self.tasks@.len()
        &&& self.stage is WritingDocument ==> self.result.created@.len() > 0
        &&& self.stage matches Stage::Reconciling { plan, .. } ==> plan_fits(
            self.tasks@[self.index as int].status,
            plan,
        )
    }

    pub closed spec fn result(&self) -> SyncResult {
        self.result
    }

    pub closed spec fn task_count(&self) -> nat {
        self.tasks@.len()
    }

    pub closed spec fn task(&self, i: int) -> TaskItem {
        self.tasks@[i]
    }

    /// How many tasks have their outcome.
    pub closed spec fn position(&self) -> nat {
        self.index as nat
    }

    pub closed spec fn finished(&self) -> bool {
        self.stage is Done
    }

    pub closed spec fn calling(&self) -> bool {
        self.stage is Calling
    }

    pub closed spec fn document(&self) -> Seq<char> {
        self.document@
    }

    pub closed spec fn path_of(&self, i: int) -> Seq<char> {
        joined(self.root.root()@, self.tasks@[i].path@)
    }

    /// The outcome so far.
    pub fn result_ref(&self) -> (r: &SyncResult)
        ensures
            *r == self.result(),
    {
        &self.result
    }

    /// The outcome, once the run is over.
    pub fn into_result(self) -> (r: SyncResult)
        ensures
            r == self.result(),
    {
        self.result
    }

    /// Whether nothing is left to do.
    pub fn is_finished(&self) -> (r: bool)
        ensures
            r == self.finished(),
    {
        match self.stage {
            Stage::Done => true,
            _ => false,
        }
    }

    fn current_path(&self) -> (r: String)
        requires
            self.index < self.tasks@.len(),
        ensures
            r@ == self.path_of(self.index as int),
    {
        self.root.task_file_path(&self.tasks[self.index])
    }

    /// Moves on to the next task, or to writing the document once every task
    /// has its outcome and at least one issue was created.
    fn next_task(&mut self) -> (r: SyncCommand)
        requires
            old(self).index < old(self).tasks@.len(),
            old(self).result.count() == old(self).index + 1,
        ensures
            final(self).wf(),
            final(self).index == old(self).index + 1,
            final(self).result == old(self).result,
            final(self).tasks == old(self).tasks,
            final(self).root == old(self).root,
            final(self).document == old(self).document,
            final(self).index < final(self).tasks@.len() ==> (final(self).stage is Reading && (r matches SyncCommand::ReadTaskFile { path } && path@ == final(self).path_of(final(self).index as int))),
            final(self).index == final(self).tasks@.len() && final(self).result.created@.len() > 0 ==> (r matches SyncCommand::WriteProjectFile { contents } && contents@ == patched(final(self).document@, final(self).result.created@)),
            final(self).index == final(self).tasks@.len() && final(self).result.created@.len() == 0 ==> r is Finished && final(self).stage is Done,
            r is WriteProjectFile ==> final(self).stage is WritingDocument,
            r is ReadTaskFile || r is WriteProjectFile || r is Finished,
            r matches SyncCommand::WriteProjectFile { contents } ==> contents@ == patched(final(self).document@, final(self).result.created@),
            !(final(self).stage is Calling),
    {
        let n = self.tasks.len();
        assert(self.index < n);
        self.index = self.index + 1;
        if self.index < n {
            self.stage = Stage::Reading;
            let path = self.current_path();
            SyncCommand::ReadTaskFile { path }
        } else if self.result.created.len() > 0 {
            self.stage = Stage::WritingDocument;
            let contents = update_project_file(self.document.as_str(), &self.result.created);
            SyncCommand::WriteProjectFile { contents }
        } else {
            self.stage = Stage::Done;
            SyncCommand::Finished
        }
    }

    /// Records the current task as failed and moves on.
    fn fail_task(&mut self, e: SyncError) -> (r: SyncCommand)
        requires
            old(self).wf(),
            old(self).index < old(self).tasks@.len(),
        ensures
            final(self).wf(),
            final(self).index == old(self).index + 1,
            final(self).result.errors@.len() == old(self).result.errors@.len() + 1,
            final(self).result.errors@.last().0@ == old(self).tasks@[old(self).index as int].path@,
            final(self).result.errors@.last().1 == e,
            final(self).result.errors@ == old(self).result.errors@.push((old(self).tasks@[old(self).index as int].path, e)),
            error_recorded(*old(self), *final(self), Ok::<SyncCommand, SyncError>(r), e),
            final(self).result.created == old(self).result.created,
            final(self).result.updated == old(self).result.updated,
            final(self).result.skipped == old(self).result.skipped,
            final(self).result.extends(old(self).result),
            final(self).tasks == old(self).tasks,
            final(self).root == old(self).root,
            final(self).document == old(self).document,
            r is ReadTaskFile || r is WriteProjectFile || r is Finished,
            r is WriteProjectFile ==> final(self).stage is WritingDocument,
            r matches SyncCommand::WriteProjectFile { contents } ==> contents@ == patched(final(self).document@, final(self).result.created@),
            !(final(self).stage is Calling),
    {
        let path = self.tasks[self.index].path.clone();
        self.result.errors.push((path, e));
        self.next_task()
    }

    pub closed spec fn awaiting(&self) -> Awaiting {
        match self.stage {
            Stage::Reading => Awaiting::TaskFile,
            Stage::Reconciling { .. } => Awaiting::IdWrite,
            Stage::Calling { .. } => Awaiting::Tracker,
            Stage::Stamping { .. } => Awaiting::MetadataWrite,
            Stage::WritingDocument => Awaiting::DocumentWrite,
            Stage::Done => Awaiting::Nothing,
        }
    }

    /// Each finished task has exactly one entry in the result; the run is
    /// over only once every task has one.
    pub open spec fn progress_ok(&self) -> bool {
        &&& self.result().count() == self.position()
        &&& self.position() <= self.task_count()
        &&& self.finished() ==> self.position() == self.task_count()
        &&& self.awaiting() is DocumentWrite ==> self.position() == self.task_count()
            && self.result().created@.len() > 0
        &&& !(self.awaiting() is DocumentWrite || self.finished()) ==> self.position() < self.task_count()
    }

    /// Whether the run waits for `e`: the outcome of the command it gave.
    pub closed spec fn expects(&self, e: SyncEvent) -> bool {
        match self.stage {
            Stage::Done => false,
            Stage::Reading => e is TaskFileRead || e is Failed,
            Stage::Reconciling { .. } => e is Written || e is Failed,
            Stage::Calling { .. } => e is Failed || (e is IssueCreated
                && self.tasks@[self.index as int].status is New) || (e is IssueUpdated
                && self.tasks@[self.index as int].status is Existing),
            Stage::Stamping { .. } => e is Written || e is Failed,
            Stage::WritingDocument => e is Written || e is Failed,
        }
    }

    /// The task file's text, while the run waits on the tracker or on the id rewrite.
    pub closed spec fn held_text(&self) -> Seq<char> {
        match self.stage {
            Stage::Calling { contents } => contents@,
            Stage::Reconciling { contents, .. } => contents@,
            _ => Seq::empty(),
        }
    }

    /// The plan held while the task file's id is rewritten.
    pub closed spec fn held_plan(&self) -> Result<TaskPlan, SyncError> {
        match self.stage {
            Stage::Reconciling { plan, .. } => plan,
            _ => Ok(TaskPlan::Skip),
        }
    }

    /// What is recorded for the current task once its file is written.
    pub closed spec fn pending_action(&self) -> SyncAction {
        match self.stage {
            Stage::Stamping { action } => action,
            _ => SyncAction::Skipped,
        }
    }

    /// Records the current task's outcome and moves on.
    fn record(&mut self, action: SyncAction) -> (r: SyncCommand)
        requires
            old(self).wf(),
            old(self).index < old(self).tasks@.len(),
        ensures
            final(self).wf(),
            final(self).index == old(self).index + 1,
            final(self).result.extends(old(self).result),
            final(self).result.errors == old(self).result.errors,
            moved_on(*final(self), Ok::<SyncCommand, SyncError>(r)),
            match action {
                SyncAction::Created(n) => final(self).result.created@ == old(self).result.created@.push((old(self).tasks@[old(self).index as int].path, n)),
                SyncAction::Updated(n) => final(self).result.updated@ == old(self).result.updated@.push((old(self).tasks@[old(self).index as int].path, n)),
                SyncAction::Skipped => skip_recorded(*old(self), *final(self), Ok::<SyncCommand, SyncError>(r)),
            },
            match action {
                SyncAction::Created(n) => final(self).result.created@.len() == old(self).result.created@.len() + 1 && final(self).result.created@.last().0@ == old(self).tasks@[old(self).index as int].path@ && final(self).result.created@.last().1 == n
                    && final(self).result.updated == old(self).result.updated
                    && final(self).result.skipped == old(self).result.skipped,
                SyncAction::Updated(n) => final(self).result.updated@.len() == old(self).result.updated@.len() + 1 && final(self).result.updated@.last().0@ == old(self).tasks@[old(self).index as int].path@ && final(self).result.updated@.last().1 == n
                    && final(self).result.created == old(self).result.created
                    && final(self).result.skipped == old(self).result.skipped,
                SyncAction::Skipped => final(self).result.skipped@.len() == old(self).result.skipped@.len() + 1 && final(self).result.skipped@.last()@ == old(self).tasks@[old(self).index as int].path@ && final(self).result.created == old(self).result.created && final(self).result.updated == old(self).result.updated,
            },
            final(self).tasks == old(self).tasks,
            final(self).root == old(self).root,
            final(self).document == old(self).document,
            r is ReadTaskFile || r is WriteProjectFile || r is Finished,
            r is WriteProjectFile ==> final(self).stage is WritingDocument,
            r matches SyncCommand::WriteProjectFile { contents } ==> contents@ == patched(final(self).document@, final(self).result.created@),
            !(final(self).stage is Calling),
    {
        let path = self.tasks[self.index].path.clone();
        match action {
            SyncAction::Created(n) => self.result.created.push((path, n)),
            SyncAction::Updated(n) => self.result.updated.push((path, n)),
            SyncAction::Skipped => self.result.skipped.push(path),
        }
        self.next_task()
    }

    /// Carries out a task's plan: a call to the tracker, or its outcome.
    fn apply_plan(&mut self, contents: String, plan: Result<TaskPlan, SyncError>) -> (r: SyncCommand)
        requires
            old(self).wf(),
            old(self).index < old(self).tasks@.len(),
        ensures
            final(self).wf(),
            final(self).result.extends(old(self).result),
            final(self).tasks == old(self).tasks,
            final(self).root == old(self).root,
            final(self).document == old(self).document,
            plan matches Ok(TaskPlan::Skip) ==> final(self).index == old(self).index + 1
                && final(self).result.skipped@.len() == old(self).result.skipped@.len() + 1
                && final(self).result.skipped@.last()@ == old(self).tasks@[old(self).index as int].path@
                && (r is ReadTaskFile || r is WriteProjectFile || r is Finished),
            plan is Err ==> final(self).index == old(self).index + 1
                && final(self).result.errors@.len() == old(self).result.errors@.len() + 1
                && final(self).result.errors@.last().1 == plan->Err_0
                && final(self).result.errors@.last().0@ == old(self).tasks@[old(self).index as int].path@
                && (r is ReadTaskFile || r is WriteProjectFile || r is Finished),
            plan matches Ok(TaskPlan::Skip) ==> final(self).result.errors == old(self).result.errors,
            plan matches Ok(TaskPlan::Skip) ==> skip_recorded(*old(self), *final(self), Ok::<SyncCommand, SyncError>(r)),
            plan matches Err(e) ==> error_recorded(*old(self), *final(self), Ok::<SyncCommand, SyncError>(r), e),
            final(self).stage is Calling ==> final(self).stage->Calling_contents == contents,
            r matches SyncCommand::WriteProjectFile { contents } ==> contents@ == patched(final(self).document@, final(self).result.created@),
            r is WriteProjectFile ==> final(self).stage is WritingDocument,
            final(self).index == old(self).index ==> final(self).stage is Calling,
            r is CreateIssue ==> plan matches Ok(TaskPlan::Create { .. }),
            r matches SyncCommand::UpdateIssue { number, .. } ==> (plan matches Ok(TaskPlan::Update { number: k, .. }) && k == number),
            plan matches Ok(TaskPlan::Create { title, body, labels }) ==> (r matches SyncCommand::CreateIssue { title: t, body: b, labels: l } && t == title && b == body && l == labels) && final(self).stage is Calling && final(self).index == old(self).index && final(self).result == old(self).result,
            plan matches Ok(TaskPlan::Update { number, title, body, labels }) ==> (r matches SyncCommand::UpdateIssue { number: k, title: t, body: b, labels: l } && k == number && t == title && b == body && l == labels) && final(self).stage is Calling && final(self).index == old(self).index && final(self).result == old(self).result,
    {
        match plan {
            Err(e) => self.fail_task(e),
            Ok(TaskPlan::Skip) => self.record(SyncAction::Skipped),
            Ok(TaskPlan::Create { title, body, labels }) => {
                self.stage = Stage::Calling { contents };
                SyncCommand::CreateIssue { title, body, labels }
            },
            Ok(TaskPlan::Update { number, title, body, labels }) => {
                self.stage = Stage::Calling { contents };
                SyncCommand::UpdateIssue { number, title, body, labels }
            },
        }
    }

    /// Takes the outcome of the last command, with `now` as the time to stamp,
    /// and says what to do next. Whatever fails for one task is recorded for
    /// it and the run goes on with the next; only a failure to write the
    /// project document ends the run with an error.
    pub fn advance(&mut self, event: SyncEvent, now: &str) -> (r: Result<SyncCommand, SyncError>)
        requires
            old(self).wf(),
        ensures
            final(self).wf(),
            final(self).progress_ok(),
            final(self).result().extends(old(self).result()),
            final(self).position() == old(self).position() || final(self).position() == old(self).position() + 1,
            final(self).task_count() == old(self).task_count(),
            final(self).document() == old(self).document(),
            forall|i: int| #[trigger] final(self).task(i) == old(self).task(i),
            forall|i: int| #[trigger] final(self).path_of(i) == old(self).path_of(i),
            r matches Err(SyncError::UnexpectedEvent) <==> !old(self).expects(event),
            r matches Err(SyncError::UnexpectedEvent) ==> final(self).result() == old(self).result()
                && final(self).position() == old(self).position(),
            r matches Ok(SyncCommand::CreateIssue { .. }) ==> final(self).calling()
                && final(self).task(final(self).position() as int).status is New,
            r matches Ok(SyncCommand::UpdateIssue { number, .. }) ==> final(self).calling()
                && final(self).task(final(self).position() as int).status == TaskStatus::Existing(number),
            r matches Ok(SyncCommand::WriteTaskFile { path, .. }) ==> path@ == final(self).path_of(
                final(self).position() as int,
            ) && final(self).result() == old(self).result(),
            r matches Ok(SyncCommand::WriteProjectFile { contents }) ==> contents@ == patched(
                final(self).document(),
                final(self).result().created@,
            ) && final(self).result().created@.len() > 0 && final(self).awaiting() is DocumentWrite,
            match event {
                SyncEvent::Failed { message } => (!(old(self).awaiting() is DocumentWrite)
                    && !(old(self).awaiting() is Nothing)) ==> error_recorded(*old(self), *final(self), r,
                    if old(self).awaiting() is Tracker { SyncError::Backend(message) } else { SyncError::Io(message) }),
                _ => true,
            },
            (event is Written && old(self).awaiting() is MetadataWrite) ==> moved_on(*final(self), r)
                && final(self).position() == old(self).position() + 1
                && final(self).result().errors == old(self).result().errors
                && match old(self).pending_action() {
                SyncAction::Created(n) => final(self).result().created@ == old(self).result().created@.push((old(self).task(old(self).position() as int).path, n))
                    && final(self).result().updated == old(self).result().updated
                    && final(self).result().skipped == old(self).result().skipped,
                SyncAction::Updated(n) => final(self).result().updated@ == old(self).result().updated@.push((old(self).task(old(self).position() as int).path, n))
                    && final(self).result().created == old(self).result().created
                    && final(self).result().skipped == old(self).result().skipped,
                SyncAction::Skipped => true,
            },
            match event {
                SyncEvent::TaskFileRead { contents, modified } => old(self).awaiting() is TaskFile ==> (
                (forall|x: ParseError| #[trigger] task_file_read(contents@, Err(x)) ==> error_recorded(
                    *old(self), *final(self), r, SyncError::Parse(x)))
                && (forall|f: TaskFile| #[trigger] task_file_read(contents@, Ok(f)) ==> if id_mismatch(old(self).task(old(self).position() as int).status, f) {
                    match r {
                        Ok(SyncCommand::WriteTaskFile { path, contents: text }) => path@ == final(self).path_of(final(self).position() as int)
                            && final(self).awaiting() is IdWrite && final(self).position() == old(self).position()
                            && final(self).result() == old(self).result()
                            && final(self).held_text() == contents@
                            && plan_for(old(self).task(old(self).position() as int).status, f, modified, final(self).held_plan())
                            && rewrite_read(contents@, old(self).task(old(self).position() as int).status->Existing_0, now@, Ok::<String, SyncError>(text)),
                        _ => exists|e: SyncError| #[trigger] rewrite_read(contents@, old(self).task(old(self).position() as int).status->Existing_0, now@, Err::<String, SyncError>(e))
                            && error_recorded(*old(self), *final(self), r, e),
                    }
                } else {
                    read_applied(old(self).task(old(self).position() as int).status, f, modified, contents@, *old(self), *final(self), r)
                })),
                SyncEvent::IssueCreated { number } => (old(self).awaiting() is Tracker && old(self).task(old(self).position() as int).status is New) ==> if number == 0 {
                    error_recorded(*old(self), *final(self), r, SyncError::InvalidIssueNumber)
                } else {
                    match r {
                        Ok(SyncCommand::WriteTaskFile { path, contents: text }) => path@ == final(self).path_of(final(self).position() as int)
                            && final(self).awaiting() is MetadataWrite && final(self).pending_action() == SyncAction::Created(number)
                            && final(self).position() == old(self).position()
                            && rewrite_read(old(self).held_text(), number, now@, Ok::<String, SyncError>(text)),
                        _ => exists|e: SyncError| #[trigger] rewrite_read(old(self).held_text(), number, now@, Err::<String, SyncError>(e))
                            && error_recorded(*old(self), *final(self), r, e),
                    }
                },
                SyncEvent::IssueUpdated { number } => (old(self).awaiting() is Tracker && old(self).task(old(self).position() as int).status is Existing) ==> match r {
                    Ok(SyncCommand::WriteTaskFile { path, contents: text }) => path@ == final(self).path_of(final(self).position() as int)
                        && final(self).awaiting() is MetadataWrite && final(self).pending_action() == SyncAction::Updated(number)
                        && final(self).position() == old(self).position()
                        && rewrite_read(old(self).held_text(), old(self).task(old(self).position() as int).status->Existing_0, now@, Ok::<String, SyncError>(text)),
                    _ => exists|e: SyncError| #[trigger] rewrite_read(old(self).held_text(), old(self).task(old(self).position() as int).status->Existing_0, now@, Err::<String, SyncError>(e))
                        && error_recorded(*old(self), *final(self), r, e),
                },
                SyncEvent::Written => old(self).awaiting() is IdWrite ==> plan_applied(old(self).held_plan(), *old(self), *final(self), r),
                _ => true,
            },
            old(self).awaiting() is DocumentWrite ==> match event {
                SyncEvent::Written => (r matches Ok(SyncCommand::Finished)) && final(self).finished(),
                SyncEvent::Failed { message } => (r matches Err(SyncError::Io(m)) && m == message)
                    && final(self).finished(),
                _ => r matches Err(SyncError::UnexpectedEvent),
            },
    {
        let mut stage = Stage::Done;
        std::mem::swap(&mut self.stage, &mut stage);
        match (stage, event) {
            (Stage::WritingDocument, SyncEvent::Written) => Ok(SyncCommand::Finished),
            (Stage::WritingDocument, SyncEvent::Failed { message }) => Err(SyncError::Io(message)),
            (Stage::Reading, SyncEvent::TaskFileRead { contents, modified }) => {
                self.stage = Stage::Reading;
                let status = self.tasks[self.index].status;
                let file = match parse_task_file(contents.as_str()) {
                    Ok(f) => f,
                    Err(e) => return Ok(self.fail_task(SyncError::Parse(e))),
                };
                let ghost g = file;
                proof {
                    assert forall|f: TaskFile| #[trigger] task_file_read(contents@, Ok(f)) implies
                        f.config.updated_at == g.config.updated_at && f.config.issue_id
                        == g.config.issue_id && f.title@ == g.title@ && f.body@ == g.body@
                        && same_texts(labels_of(g.config), labels_of(f.config)) by {
                        let (k1, k2) = task_separators(contents@)->Some_0;
                        let e = front_matter_of(trim(contents@.subrange(k1 + 3, k2)))->Ok_0;
                        if let Some(YamlNode::List(items)) = lookup(e, "tags"@) {
                            assert forall|i: int| 0 <= i < labels_of(g.config).len() implies
                                (#[trigger] labels_of(g.config)[i])@ == labels_of(f.config)[i]@ by {
                                assert(text_is(items@[i], g.config.tags->Some_0@[i]));
                                assert(text_is(items@[i], f.config.tags->Some_0@[i]));
                            }
                        }
                    }
                }
                let mismatch = match status {
                    TaskStatus::Existing(n) => match file.config.issue_id {
                        Some(k) => k != n,
                        None => true,
                    },
                    TaskStatus::New => false,
                };
                let plan = plan_task(status, file, modified);
                match status {
                    TaskStatus::Existing(n) if mismatch => {
                        match update_task_file_with_metadata(contents.as_str(), n, now) {
                            Err(e) => {
                                let ghost ee = e;
                                let cmd = self.fail_task(e);
                                assert(old(self).task(old(self).position() as int).status->Existing_0 == n);
                                assert(rewrite_read(contents@, old(self).task(old(self).position() as int).status->Existing_0, now@, Err::<String, SyncError>(ee)));
                                assert(error_recorded(*old(self), *self, Ok::<SyncCommand, SyncError>(cmd), ee));
                                Ok(cmd)
                            },
                            Ok(text) => {
                                self.stage = Stage::Reconciling { contents, plan };
                                let path = self.current_path();
                                Ok(SyncCommand::WriteTaskFile { path, contents: text })
                            },
                        }
                    },
                    _ => Ok(self.apply_plan(contents, plan)),
                }
            },
            (Stage::Reconciling { contents, plan }, SyncEvent::Written) => {
                self.stage = Stage::Reading;
                Ok(self.apply_plan(contents, plan))
            },
            (Stage::Calling { contents }, SyncEvent::IssueCreated { number }) => {
                self.stage = Stage::Reading;
                if !self.tasks[self.index].status.is_new() {
                    self.stage = Stage::Calling { contents };
                    return Err(SyncError::UnexpectedEvent);
                }
                if number == 0 {
                    return Ok(self.fail_task(SyncError::InvalidIssueNumber));
                }
                assert(old(self).held_text() == contents@);
                match update_task_file_with_metadata(contents.as_str(), number, now) {
                    Err(e) => {
                        let ghost ee = e;
                        let cmd = self.fail_task(e);
                        assert(rewrite_read(old(self).held_text(), number, now@, Err::<String, SyncError>(ee)));
                        assert(error_recorded(*old(self), *self, Ok::<SyncCommand, SyncError>(cmd), ee));
                        Ok(cmd)
                    },
                    Ok(text) => {
                        self.stage = Stage::Stamping { action: SyncAction::Created(number) };
                        let path = self.current_path();
                        Ok(SyncCommand::WriteTaskFile { path, contents: text })
                    },
                }
            },
            (Stage::Calling { contents }, SyncEvent::IssueUpdated { number }) => {
                self.stage = Stage::Reading;
                let n = match self.tasks[self.index].status {
                    TaskStatus::Existing(n) => n,
                    TaskStatus::New => {
                        self.stage = Stage::Calling { contents };
                        return Err(SyncError::UnexpectedEvent);
                    },
                };
                assert(old(self).held_text() == contents@);
                assert(old(self).task(old(self).position() as int).status->Existing_0 == n);
                match update_task_file_with_metadata(contents.as_str(), n, now) {
                    Err(e) => {
                        let ghost ee = e;
                        let cmd = self.fail_task(e);
                        assert(rewrite_read(old(self).held_text(), old(self).task(old(self).position() as int).status->Existing_0, now@, Err::<String, SyncError>(ee)));
                        assert(error_recorded(*old(self), *self, Ok::<SyncCommand, SyncError>(cmd), ee));
                        Ok(cmd)
                    },
                    Ok(text) => {
                        self.stage = Stage::Stamping { action: SyncAction::Updated(number) };
                        let path = self.current_path();
                        Ok(SyncCommand::WriteTaskFile { path, contents: text })
                    },
                }
            },
            (Stage::Calling { .. }, SyncEvent::Failed { message }) => {
                self.stage = Stage::Reading;
                Ok(self.fail_task(SyncError::Backend(message)))
            },
            (Stage::Stamping { action }, SyncEvent::Written) => {
                self.stage = Stage::Reading;
                Ok(self.record(action))
            },
            (Stage::Reading, SyncEvent::Failed { message }) | (
                Stage::Reconciling { .. },
                SyncEvent::Failed { message },
            ) | (Stage::Stamping { .. }, SyncEvent::Failed { message }) => {
                self.stage = Stage::Reading;
                Ok(self.fail_task(SyncError::Io(message)))
            },
            (stage, _) => {
                self.stage = stage;
                Err(SyncError::UnexpectedEvent)
            },
        }
    }

    /// Takes the outcome of the last command and says what to do next,
    /// stamping files with the time now; see `advance`.
    pub fn step(&mut self, event: SyncEvent) -> (r: Result<SyncCommand, SyncError>)
        requires
            old(self).wf(),
        ensures
            final(self).wf(),
            final(self).progress_ok(),
            final(self).result().extends(old(self).result()),
            final(self).position() == old(self).position() || final(self).position() == old(self).position() + 1,
            final(self).task_count() == old(self).task_count(),
            final(self).document() == old(self).document(),
            forall|i: int| #[trigger] final(self).task(i) == old(self).task(i),
            forall|i: int| #[trigger] final(self).path_of(i) == old(self).path_of(i),
            r matches Err(SyncError::UnexpectedEvent) <==> !old(self).expects(event),
            r matches Err(SyncError::UnexpectedEvent) ==> final(self).result() == old(self).result()
                && final(self).position() == old(self).position(),
            r matches Ok(SyncCommand::CreateIssue { .. }) ==> final(self).calling()
                && final(self).task(final(self).position() as int).status is New,
            r matches Ok(SyncCommand::UpdateIssue { number, .. }) ==> final(self).calling()
                && final(self).task(final(self).position() as int).status == TaskStatus::Existing(number),
            r matches Ok(SyncCommand::WriteTaskFile { path, .. }) ==> path@ == final(self).path_of(
                final(self).position() as int,
            ) && final(self).result() == old(self).result(),
            r matches Ok(SyncCommand::WriteProjectFile { contents }) ==> contents@ == patched(
                final(self).document(),
                final(self).result().created@,
            ) && final(self).result().created@.len() > 0 && final(self).awaiting() is DocumentWrite,
            match event {
                SyncEvent::Failed { message } => (!(old(self).awaiting() is DocumentWrite)
                    && !(old(self).awaiting() is Nothing)) ==> error_recorded(*old(self), *final(self), r,
                    if old(self).awaiting() is Tracker { SyncError::Backend(message) } else { SyncError::Io(message) }),
                _ => true,
            },
            (event is Written && old(self).awaiting() is MetadataWrite) ==> moved_on(*final(self), r)
                && final(self).position() == old(self).position() + 1
                && final(self).result().errors == old(self).result().errors
                && match old(self).pending_action() {
                SyncAction::Created(n) => final(self).result().created@ == old(self).result().created@.push((old(self).task(old(self).position() as int).path, n))
                    && final(self).result().updated == old(self).result().updated
                    && final(self).result().skipped == old(self).result().skipped,
                SyncAction::Updated(n) => final(self).result().updated@ == old(self).result().updated@.push((old(self).task(old(self).position() as int).path, n))
                    && final(self).result().created == old(self).result().created
                    && final(self).result().skipped == old(self).result().skipped,
                SyncAction::Skipped => true,
            },
            match event {
                SyncEvent::TaskFileRead { contents, modified } => old(self).awaiting() is TaskFile ==> (
                (forall|x: ParseError| #[trigger] task_file_read(contents@, Err(x)) ==> error_recorded(
                    *old(self), *final(self), r, SyncError::Parse(x)))
                && (forall|f: TaskFile| #[trigger] task_file_read(contents@, Ok(f)) ==> if id_mismatch(old(self).task(old(self).position() as int).status, f) {
                    match r {
                        Ok(SyncCommand::WriteTaskFile { path, contents: text }) => path@ == final(self).path_of(final(self).position() as int)
                            && final(self).awaiting() is IdWrite && final(self).position() == old(self).position()
                            && final(self).result() == old(self).result()
                            && final(self).held_text() == contents@
                            && plan_for(old(self).task(old(self).position() as int).status, f, modified, final(self).held_plan())
                            && exists|t: Seq<char>| #[trigger] rewrite_read(contents@, old(self).task(old(self).position() as int).status->Existing_0, t, Ok::<String, SyncError>(text)),
                        _ => exists|e: SyncError, t: Seq<char>| #[trigger] rewrite_read(contents@, old(self).task(old(self).position() as int).status->Existing_0, t, Err::<String, SyncError>(e))
                            && error_recorded(*old(self), *final(self), r, e),
                    }
                } else {
                    read_applied(old(self).task(old(self).position() as int).status, f, modified, contents@, *old(self), *final(self), r)
                })),
                SyncEvent::IssueCreated { number } => (old(self).awaiting() is Tracker && old(self).task(old(self).position() as int).status is New) ==> if number == 0 {
                    error_recorded(*old(self), *final(self), r, SyncError::InvalidIssueNumber)
                } else {
                    match r {
                        Ok(SyncCommand::WriteTaskFile { path, contents: text }) => path@ == final(self).path_of(final(self).position() as int)
                            && final(self).awaiting() is MetadataWrite && final(self).pending_action() == SyncAction::Created(number)
                            && final(self).position() == old(self).position()
                            && exists|t: Seq<char>| #[trigger] rewrite_read(old(self).held_text(), number, t, Ok::<String, SyncError>(text)),
                        _ => exists|e: SyncError, t: Seq<char>| #[trigger] rewrite_read(old(self).held_text(), number, t, Err::<String, SyncError>(e))
                            && error_recorded(*old(self), *final(self), r, e),
                    }
                },
                SyncEvent::IssueUpdated { number } => (old(self).awaiting() is Tracker && old(self).task(old(self).position() as int).status is Existing) ==> match r {
                    Ok(SyncCommand::WriteTaskFile { path, contents: text }) => path@ == final(self).path_of(final(self).position() as int)
                        && final(self).awaiting() is MetadataWrite && final(self).pending_action() == SyncAction::Updated(number)
                        && final(self).position() == old(self).position()
                        && exists|t: Seq<char>| #[trigger] rewrite_read(old(self).held_text(), old(self).task(old(self).position() as int).status->Existing_0, t, Ok::<String, SyncError>(text)),
                    _ => exists|e: SyncError, t: Seq<char>| #[trigger] rewrite_read(old(self).held_text(), old(self).task(old(self).position() as int).status->Existing_0, t, Err::<String, SyncError>(e))
                        && error_recorded(*old(self), *final(self), r, e),
                },
                SyncEvent::Written => old(self).awaiting() is IdWrite ==> plan_applied(old(self).held_plan(), *old(self), *final(self), r),
                _ => true,
            },
            old(self).awaiting() is DocumentWrite ==> match event {
                SyncEvent::Written => (r matches Ok(SyncCommand::Finished)) && final(self).finished(),
                SyncEvent::Failed { message } => (r matches Err(SyncError::Io(m)) && m == message)
                    && final(self).finished(),
                _ => r matches Err(SyncError::UnexpectedEvent),
            },
    {
        let now = now_rfc3339();
        self.advance(event, now.as_str())
    }
}

/// A task whose file was not modified after its stored `updated_at` is
/// skipped: nothing is asked of the tracker for it.
pub proof fn lemma_unchanged_task_is_skipped(
    n: u64,
    file: TaskFile,
    modified: Timestamp,
    plan: TaskPlan,
    stored: String,
    seconds: i64,
    nanos: u32,
)
    requires
        file.config.updated_at == Some(stored),
        rfc3339_instant(stored@) == Some((seconds, nanos)),
        !later(modified, Timestamp { seconds, nanos }),
        plan_matches(TaskStatus::Existing(n), file, modified, plan),
    ensures
        plan is Skip,
{
}

/// In a run, a task tracked as issue `n` whose file records `n` and was not
/// modified after its stored `updated_at` gets no id rewrite and is recorded
/// as skipped: no call to the tracker and no write of its file follow.
pub proof fn lemma_unchanged_task_is_skipped_in_run(
    n: u64,
    file: TaskFile,
    modified: Timestamp,
    stored: String,
    seconds: i64,
    nanos: u32,
    text: Seq<char>,
    a: SyncRun,
    b: SyncRun,
    r: Result<SyncCommand, SyncError>,
)
    requires
        file.config.issue_id == Some(n),
        file.config.updated_at == Some(stored),
        rfc3339_instant(stored@) == Some((seconds, nanos)),
        !later(modified, Timestamp { seconds, nanos }),
        read_applied(TaskStatus::Existing(n), file, modified, text, a, b, r),
    ensures
        !id_mismatch(TaskStatus::Existing(n), file),
        skip_recorded(a, b, r),
        !(r matches Ok(c) && (c is CreateIssue || c is UpdateIssue || c is WriteTaskFile)),
{
}

} // verus!

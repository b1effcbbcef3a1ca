//! Readers for the two text formats: the project document and task files.
use vstd::prelude::*;
use crate::error::ParseError;
use crate::text::{
    replace_all, replace_all_exec, chars_of, find_exec, find_from, lemma_find_bounds, occurs_at, occurs_at_exec, slice_string,
    trim, trim_bounds,
};
use crate::types::{
    project_config_error, project_config_of, task_config_of, task_fields_ok, ProjectConfig,
    ProjectMd, TaskFile, TaskFileConfig, TaskItem, TaskStatus,
};
use crate::yaml::{front_matter_of, FrontMatter, YamlNode};

verus! {

pub open spec fn is_digit(c: char) -> bool {
    '0' <= c && c <= '9'
}

/// The number that a run of decimal digits spells.
pub open spec fn digits_value(d: Seq<char>) -> int
    decreases d.len(),
{
    if d.len() == 0 {
        0
    } else {
        digits_value(d.drop_last()) * 10 + (d.last() as int - '0' as int)
    }
}

/// The end of the run of digits that starts at `i`.
pub open spec fn digits_end(l: Seq<char>, i: int) -> int
    decreases l.len() - i,
{
    if 0 <= i < l.len() && is_digit(l[i]) {
        digits_end(l, i + 1)
    } else {
        i
    }
}

pub proof fn lemma_digits_end_bounds(l: Seq<char>, i: int)
    requires
        0 <= i <= l.len(),
    ensures
        i <= digits_end(l, i) <= l.len(),
        forall|k: int| i <= k < digits_end(l, i) ==> is_digit(#[trigger] l[k]),
    decreases l.len() - i,
{
    if i < l.len() && is_digit(l[i]) {
        lemma_digits_end_bounds(l, i + 1);
    }
}

/// A task's status, as written between the brackets, and the position after
/// the closing bracket; `None` where the line does not begin a task bullet.
pub open spec fn bullet_status(l: Seq<char>) -> Option<(Result<TaskStatus, ParseError>, int)> {
    if !occurs_at(l, "* ["@, 0) {
        None
    } else if occurs_at(l, "new]"@, 3) {
        Some((Ok(TaskStatus::New), 7))
    } else if l.len() > 3 && l[3] == '#' {
        let d = digits_end(l, 4);
        if d > 4 && d < l.len() && l[d] == ']' {
            let v = digits_value(l.subrange(4, d));
            if 1 <= v <= u64::MAX {
                Some((Ok(TaskStatus::Existing(v as u64)), d + 1))
            } else {
                Some((Err(ParseError::InvalidIssueNumber), d + 1))
            }
        } else {
            None
        }
    } else {
        None
    }
}

/// What one line of the project document holds: nothing (`None`), a task
/// as status, path and description, or an error for a broken task bullet.
/// A bullet reads `* [<status>] - <path> - <description>`, the status being
/// `new` or `#` and a positive number; the path runs to the next ` - `, and
/// the description is the rest of the line without surrounding whitespace.
pub open spec fn task_line(l: Seq<char>) -> Option<
    Result<(TaskStatus, Seq<char>, Seq<char>), ParseError>,
> {
    match bullet_status(l) {
        None => None,
        Some((Err(e), _)) => Some(Err(e)),
        Some((Ok(status), after)) => if !occurs_at(l, " - "@, after) {
            Some(Err(ParseError::MalformedTask))
        } else {
            match find_from(l, " - "@, after + 3) {
                None => Some(Err(ParseError::MalformedTask)),
                Some(q) => {
                    let path = l.subrange(after + 3, q);
                    let desc = trim(l.subrange(q + 3, l.len() as int));
                    if path.len() == 0 || desc.len() == 0 {
                        Some(Err(ParseError::MalformedTask))
                    } else {
                        Some(Ok((status, path, desc)))
                    }
                },
            }
        },
    }
}

/// `t` is the task that `x` describes.
pub open spec fn item_is(t: TaskItem, x: (TaskStatus, Seq<char>, Seq<char>)) -> bool {
    t.status == x.0 && t.path@ == x.1 && t.description@ == x.2
}

/// Reads the task bullets of a project document.
pub struct ProjectMdParser;

impl ProjectMdParser {
    /// Reads `#<digits>]` at `l[3..]`: the status and the position after `]`.
    fn issue_status(l: &Vec<char>) -> (r: Option<(Result<TaskStatus, ParseError>, usize)>)
        requires
            occurs_at(l@, "* ["@, 0),
            !occurs_at(l@, "new]"@, 3),
            l@.len() > 3 && l@[3] == '#',
        ensures
            r matches Some((s, k)) ==> bullet_status(l@) == Some((s, k as int)),
            r is None ==> bullet_status(l@) is None,
    {
        let n = l.len();
        let mut d: usize = 4;
        let mut v: u64 = 0;
        let mut big = false;
        proof {
            lemma_digits_end_bounds(l@, 4);
            assert(l@.subrange(4, 4) =~= Seq::<char>::empty());
        }
        while d < n && '0' <= l[d] && l[d] <= '9'
            invariant
                n == l@.len(),
                4 <= d <= n,
                digits_end(l@, 4) == digits_end(l@, d as int),
                !big ==> v == digits_value(l@.subrange(4, d as int)),
                big ==> digits_value(l@.subrange(4, d as int)) > u64::MAX,
                digits_value(l@.subrange(4, d as int)) >= 0,
            decreases n - d,
        {
            let dig = (l[d] as u32 - '0' as u32) as u64;
            let ghost prev = digits_value(l@.subrange(4, d as int));
            assert(l@.subrange(4, d + 1).drop_last() =~= l@.subrange(4, d as int));
            assert(digits_value(l@.subrange(4, d + 1)) == prev * 10 + dig);
            if !big {
                if v > (u64::MAX - dig) / 10 {
                    big = true;
                    assert(prev * 10 + dig > u64::MAX) by (nonlinear_arith)
                        requires
                            prev == v,
                            v > (u64::MAX - dig) / 10,
                            0 <= dig <= 9,
                    ;
                } else {
                    assert(v * 10 + dig <= u64::MAX) by (nonlinear_arith)
                        requires
                            v <= (u64::MAX - dig) / 10,
                            0 <= dig <= 9,
                    ;
                    v = v * 10 + dig;
                }
            } else {
                assert(prev * 10 + dig > u64::MAX) by (nonlinear_arith)
                    requires
                        prev > u64::MAX,
                        0 <= dig,
                ;
            }
            d = d + 1;
        }
        assert(digits_end(l@, d as int) == d);
        if d > 4 && d < n && l[d] == ']' {
            if !big && v >= 1 {
                Some((Ok(TaskStatus::Existing(v)), d + 1))
            } else {
                Some((Err(ParseError::InvalidIssueNumber), d + 1))
            }
        } else {
            None
        }
    }

    /// Reads one line of the project document.
    pub fn task_line(line: &str) -> (r: Option<Result<TaskItem, ParseError>>)
        ensures
            r is None <==> task_line(line@) is None,
            r matches Some(Err(e)) ==> task_line(line@) == Some(
                Err::<(TaskStatus, Seq<char>, Seq<char>), ParseError>(e),
            ),
            r matches Some(Ok(t)) ==> task_line(line@) matches Some(Ok(x)) && item_is(t, x),
            task_line(line@) matches Some(Ok(_)) ==> r matches Some(Ok(_)),
    {
        let l = chars_of(line);
        let n = l.len();
        let star = chars_of("* [");
        let new_mark = chars_of("new]");
        let dash = chars_of(" - ");
        proof {
            reveal_strlit("* [");
            reveal_strlit("new]");
            reveal_strlit(" - ");
        }
        if !occurs_at_exec(&l, &star, 0) {
            return None;
        }
        let (status, after) = if occurs_at_exec(&l, &new_mark, 3) {
            (TaskStatus::New, 7usize)
        } else if n > 3 && l[3] == '#' {
            match Self::issue_status(&l) {
                None => return None,
                Some((Err(e), _)) => return Some(Err(e)),
                Some((Ok(s), k)) => (s, k),
            }
        } else {
            return None;
        };
        assert(bullet_status(l@) == Some((Ok::<TaskStatus, ParseError>(status), after as int)));
        if !occurs_at_exec(&l, &dash, after) {
            return Some(Err(ParseError::MalformedTask));
        }
        let p = after + 3;
        let q = match find_exec(&l, &dash, p) {
            None => return Some(Err(ParseError::MalformedTask)),
            Some(q) => q,
        };
        proof {
            lemma_find_bounds(l@, dash@, p as int);
        }
        let (a, b) = trim_bounds(&l, q + 3, n);
        if q == p || a == b {
            return Some(Err(ParseError::MalformedTask));
        }
        let path = slice_string(line, p, q);
        let description = slice_string(line, a, b);
        proof {
            assert(l@.subrange(q + 3, n as int).subrange(a - (q + 3), b - (q + 3)) =~= l@.subrange(
                a as int,
                b as int,
            ));
        }
        Some(Ok(TaskItem { status, path, description }))
    }
}

/// The end of the line that starts at `i`: its newline, or the end of `s`.
pub open spec fn line_end(s: Seq<char>, i: int) -> int {
    match find_from(s, seq!['\n'], i) {
        Some(k) => k,
        None => s.len() as int,
    }
}

pub proof fn lemma_line_end_bounds(s: Seq<char>, i: int)
    requires
        0 <= i <= s.len(),
    ensures
        i <= line_end(s, i) <= s.len(),
{
    lemma_find_bounds(s, seq!['\n'], i);
}

/// The start of the first line, from the line that starts at `i` on, that
/// holds `---` and nothing else but whitespace.
pub open spec fn separator_from(s: Seq<char>, i: int) -> Option<int>
    decreases s.len() + 1 - i,
    via separator_from_decreases
{
    if i < 0 || i > s.len() {
        None
    } else if trim(s.subrange(i, line_end(s, i))) == "---"@ {
        Some(i)
    } else if line_end(s, i) < s.len() {
        separator_from(s, line_end(s, i) + 1)
    } else {
        None
    }
}

#[via_fn]
proof fn separator_from_decreases(s: Seq<char>, i: int) {
    if 0 <= i <= s.len() {
        lemma_line_end_bounds(s, i);
    }
}

/// The tasks of the lines from the one that starts at `i` on, in order; the
/// first broken task bullet makes the whole an error.
pub open spec fn tasks_from(s: Seq<char>, i: int) -> Result<
    Seq<(TaskStatus, Seq<char>, Seq<char>)>,
    ParseError,
>
    decreases s.len() + 1 - i,
    via tasks_from_decreases
{
    if i < 0 || i > s.len() {
        Ok(Seq::empty())
    } else {
        let rest = if line_end(s, i) < s.len() {
            tasks_from(s, line_end(s, i) + 1)
        } else {
            Ok(Seq::empty())
        };
        match task_line(s.subrange(i, line_end(s, i))) {
            None => rest,
            Some(Err(e)) => Err(e),
            Some(Ok(t)) => match rest {
                Ok(ts) => Ok(seq![t] + ts),
                Err(e) => Err(e),
            },
        }
    }
}

#[via_fn]
proof fn tasks_from_decreases(s: Seq<char>, i: int) {
    if 0 <= i <= s.len() {
        lemma_line_end_bounds(s, i);
    }
}

/// Tasks already read, followed by what the remaining lines give.
pub open spec fn then_tasks(
    done: Seq<(TaskStatus, Seq<char>, Seq<char>)>,
    rest: Result<Seq<(TaskStatus, Seq<char>, Seq<char>)>, ParseError>,
) -> Result<Seq<(TaskStatus, Seq<char>, Seq<char>)>, ParseError> {
    match rest {
        Ok(ts) => Ok(done + ts),
        Err(e) => Err(e),
    }
}

/// Where the content of a project document starts: after the separator line.
pub open spec fn content_start(s: Seq<char>, sep: int) -> int {
    line_end(s, sep) + 1
}

/// A task status holds a positive issue number, if any.
pub open spec fn status_ok(st: TaskStatus) -> bool {
    st matches TaskStatus::Existing(n) ==> n >= 1
}

pub proof fn lemma_task_line_status(l: Seq<char>)
    ensures
        task_line(l) matches Some(Ok(x)) ==> status_ok(x.0),
{
}

impl ProjectMdParser {
    /// The start of the separator line, if there is one.
    fn separator(cs: &Vec<char>, line: &Vec<char>) -> (r: Option<usize>)
        requires
            line@ == seq!['\n'],
        ensures
            r matches Some(p) ==> separator_from(cs@, 0) == Some(p as int) && p <= cs@.len(),
            r is None ==> separator_from(cs@, 0) is None,
    {
        let n = cs.len();
        let mut i: usize = 0;
        loop
            invariant
                n == cs@.len(),
                line@ == seq!['\n'],
                i <= n,
                separator_from(cs@, 0) == separator_from(cs@, i as int),
            decreases n - i,
        {
            let e = match find_exec(cs, line, i) {
                Some(k) => k,
                None => n,
            };
            proof {
                lemma_line_end_bounds(cs@, i as int);
            }
            assert(e == line_end(cs@, i as int));
            let (a, b) = trim_bounds(cs, i, e);
            let dashes = b - a == 3 && cs[a] == '-' && cs[a + 1] == '-' && cs[a + 2] == '-';
            proof {
                reveal_strlit("---");
                let t = trim(cs@.subrange(i as int, e as int));
                assert(t =~= cs@.subrange(a as int, b as int));
                if dashes {
                    assert(t =~= "---"@);
                } else if t == "---"@ {
                    assert(t.len() == 3 && t[0] == '-' && t[1] == '-' && t[2] == '-');
                    assert(cs@[a as int] == t[0] && cs@[a + 1] == t[1] && cs@[a + 2] == t[2]);
                }
            }
            if dashes {
                return Some(i);
            }
            if e >= n {
                return None;
            }
            i = e + 1;
        }
    }

    /// The tasks of the lines from `start` on.
    fn tasks(text: &str, cs: &Vec<char>, line: &Vec<char>, start: usize) -> (r: Result<
        Vec<TaskItem>,
        ParseError,
    >)
        requires
            cs@ == text@,
            line@ == seq!['\n'],
        ensures
            r matches Ok(v) ==> tasks_from(text@, start as int) matches Ok(ts) && v@.len()
                == ts.len() && forall|k: int| 0 <= k < ts.len() ==> item_is(#[trigger] v@[k], ts[k]),
            r matches Err(e) ==> tasks_from(text@, start as int) == Err::<
                Seq<(TaskStatus, Seq<char>, Seq<char>)>,
                ParseError,
            >(e),
    {
        let n = cs.len();
        if start > n {
            return Ok(Vec::new());
        }
        let mut out: Vec<TaskItem> = Vec::new();
        let ghost mut done: Seq<(TaskStatus, Seq<char>, Seq<char>)> = Seq::empty();
        let mut i: usize = start;
        assert(then_tasks(done, tasks_from(text@, i as int)) =~= tasks_from(text@, start as int))
            by {
            match tasks_from(text@, i as int) {
                Ok(ts) => assert(done + ts =~= ts),
                Err(_) => {},
            }
        }
        loop
            invariant
                n == cs@.len(),
                cs@ == text@,
                line@ == seq!['\n'],
                i <= n,
                then_tasks(done, tasks_from(text@, i as int)) == tasks_from(text@, start as int),
                out@.len() == done.len(),
                forall|k: int| 0 <= k < done.len() ==> item_is(#[trigger] out@[k], done[k]),
            decreases n - i,
        {
            let e = match find_exec(cs, line, i) {
                Some(k) => k,
                None => n,
            };
            proof {
                lemma_line_end_bounds(cs@, i as int);
            }
            assert(e == line_end(cs@, i as int));
            let here = Self::task_line(text.substring_char(i, e));
            let ghost rest = if e < n {
                tasks_from(text@, e + 1)
            } else {
                Ok(Seq::empty())
            };
            match here {
                Some(Err(err)) => return Err(err),
                Some(Ok(t)) => {
                    proof {
                        let x = task_line(text@.subrange(i as int, e as int))->Some_0->Ok_0;
                        match rest {
                            Ok(ts) => assert(done + (seq![x] + ts) =~= done.push(x) + ts),
                            Err(_) => {},
                        }
                        done = done.push(x);
                    }
                    out.push(t);
                    assert(forall|k: int| 0 <= k < done.len() ==> item_is(#[trigger] out@[k], done[k]));
                },
                None => {},
            }
            if e >= n {
                proof {
                    assert(done + Seq::empty() =~= done);
                }
                return Ok(out);
            }
            i = e + 1;
        }
    }
}

/// What reading the document `s` gives: the front matter up to the first
/// `---` line, which must not be blank, read as a project configuration, then
/// the tasks of the lines after it.
pub open spec fn document_read(s: Seq<char>, r: Result<ProjectMd, ParseError>) -> bool {
    match separator_from(s, 0) {
        None => r == Err::<ProjectMd, ParseError>(ParseError::MissingFrontMatter),
        Some(p) => if trim(s.subrange(0, p)).len() == 0 {
            r == Err::<ProjectMd, ParseError>(ParseError::MissingFrontMatter)
        } else {
            match front_matter_of(s.subrange(0, p)) {
                Err(x) => r == Err::<ProjectMd, ParseError>(x),
                Ok(e) => match project_config_error(e) {
                    Some(x) => r == Err::<ProjectMd, ParseError>(x),
                    None => match tasks_from(s, content_start(s, p)) {
                        Err(x) => r == Err::<ProjectMd, ParseError>(x),
                        Ok(ts) => r matches Ok(doc) && project_config_of(e, doc.config)
                            && doc.config.wf() && doc.tasks@.len() == ts.len() && forall|k: int|
                            0 <= k < ts.len() ==> item_is(#[trigger] doc.tasks@[k], ts[k]),
                    },
                },
            }
        },
    }
}

/// A document whose front matter reads as a project configuration and whose
/// content holds no task bullet parses, with an empty task list.
pub proof fn lemma_document_without_bullets(
    s: Seq<char>,
    p: int,
    e: Seq<(String, YamlNode)>,
    r: Result<ProjectMd, ParseError>,
)
    requires
        separator_from(s, 0) == Some(p),
        trim(s.subrange(0, p)).len() > 0,
        front_matter_of(s.subrange(0, p)) == Ok::<Seq<(String, YamlNode)>, ParseError>(e),
        project_config_error(e) is None,
        is_line_start(s, content_start(s, p)),
        forall|k: int|
            content_start(s, p) <= k && #[trigger] is_line_start(s, k) ==> task_line(
                s.subrange(k, line_end(s, k)),
            ) is None,
        document_read(s, r),
    ensures
        r matches Ok(doc) && doc.tasks@.len() == 0,
{
    lemma_no_bullets_no_tasks(s, content_start(s, p));
}

/// A broken bullet is reported as a bad issue number or a malformed task.
pub open spec fn bullet_error(e: ParseError) -> bool {
    e == ParseError::InvalidIssueNumber || e == ParseError::MalformedTask
}

pub proof fn lemma_tasks_from_errors(s: Seq<char>, i: int)
    ensures
        tasks_from(s, i) matches Err(e) ==> bullet_error(e),
        tasks_from(s, i) matches Ok(ts) ==> forall|k: int|
            0 <= k < ts.len() ==> status_ok(#[trigger] ts[k].0),
    decreases s.len() + 1 - i,
{
    if 0 <= i <= s.len() {
        lemma_line_end_bounds(s, i);
        lemma_task_line_status(s.subrange(i, line_end(s, i)));
        if line_end(s, i) < s.len() {
            lemma_tasks_from_errors(s, line_end(s, i) + 1);
        }
        if let Ok(ts) = tasks_from(s, i) {
            if let Some(Ok(t)) = task_line(s.subrange(i, line_end(s, i))) {
                let rest = if line_end(s, i) < s.len() {
                    tasks_from(s, line_end(s, i) + 1)
                } else {
                    Ok(Seq::empty())
                };
                let tail = rest->Ok_0;
                assert forall|k: int| 0 <= k < ts.len() implies status_ok(#[trigger] ts[k].0) by {
                    if k > 0 {
                        assert(ts[k] == tail[k - 1]);
                    }
                }
            }
        }
    }
}

/// `k` is where a line of `s` begins.
pub open spec fn is_line_start(s: Seq<char>, k: int) -> bool {
    k == 0 || (0 < k <= s.len() && s[k - 1] == '\n')
}

/// Content in which no line is a task bullet yields no task and no error:
/// headings, prose, blank lines and other bullets are passed over.
pub proof fn lemma_no_bullets_no_tasks(s: Seq<char>, i: int)
    requires
        is_line_start(s, i),
        forall|k: int|
            i <= k && #[trigger] is_line_start(s, k) ==> task_line(
                s.subrange(k, line_end(s, k)),
            ) is None,
    ensures
        tasks_from(s, i) == Ok::<Seq<(TaskStatus, Seq<char>, Seq<char>)>, ParseError>(
            Seq::empty(),
        ),
    decreases s.len() + 1 - i,
{
    lemma_line_end_bounds(s, i);
    let e = line_end(s, i);
    if e < s.len() {
        lemma_find_bounds(s, seq!['\n'], i);
        assert(s.subrange(e, e + 1)[0] == s[e]);
        assert(is_line_start(s, e + 1));
        lemma_no_bullets_no_tasks(s, e + 1);
    }
}

/// Reads a project document: its front matter, up to the first line that is
/// `---`, and the task bullets after that line; other lines are passed over.
pub fn parse_project_file(content: &str) -> (r: Result<ProjectMd, ParseError>)
    ensures
        document_read(content@, r),
        r matches Ok(doc) ==> forall|k: int|
            0 <= k < doc.tasks@.len() ==> status_ok(#[trigger] doc.tasks@[k].status),
{
    let cs = chars_of(content);
    let newline = chars_of("\n");
    proof {
        reveal_strlit("\n");
        assert(newline@ =~= seq!['\n']);
    }
    let p = match ProjectMdParser::separator(&cs, &newline) {
        None => return Err(ParseError::MissingFrontMatter),
        Some(p) => p,
    };
    let (a, b) = trim_bounds(&cs, 0, p);
    if a == b {
        return Err(ParseError::MissingFrontMatter);
    }
    let front = content.substring_char(0, p);
    let fm = match FrontMatter::parse(front) {
        Ok(fm) => fm,
        Err(e) => return Err(e),
    };
    let ghost entries = fm.entries@;
    let config = match ProjectConfig::from_front_matter(fm) {
        Ok(c) => c,
        Err(e) => return Err(e),
    };
    let e = match find_exec(&cs, &newline, p) {
        Some(k) => k,
        None => cs.len(),
    };
    proof {
        lemma_line_end_bounds(cs@, p as int);
    }
    let tasks = if e >= cs.len() {
        Vec::new()
    } else {
        match ProjectMdParser::tasks(content, &cs, &newline, e + 1) {
            Ok(t) => t,
        Err(err) => {
            proof {
                lemma_tasks_from_errors(content@, (e + 1) as int);
            }
                assert(err != ParseError::MissingFrontMatter);
                return Err(err);
            },
        }
    };
    proof {
        lemma_tasks_from_errors(content@, (e + 1) as int);
        assert forall|k: int| 0 <= k < tasks@.len() implies status_ok(#[trigger] tasks@[k].status) by {
            let ts = tasks_from(content@, (e + 1) as int)->Ok_0;
            assert(item_is(tasks@[k], ts[k]));
        }
    }
    Ok(ProjectMd { config, tasks })
}

/// The line, trimmed, begins with the level-one heading marker `# `.
pub open spec fn is_heading(l: Seq<char>) -> bool {
    occurs_at(trim(l), "# "@, 0)
}

/// The start of the first heading line, from the line that starts at `i` on.
pub open spec fn heading_from(m: Seq<char>, i: int) -> Option<int>
    decreases m.len() + 1 - i,
    via heading_from_decreases
{
    if i < 0 || i > m.len() {
        None
    } else if is_heading(m.subrange(i, line_end(m, i))) {
        Some(i)
    } else if line_end(m, i) < m.len() {
        heading_from(m, line_end(m, i) + 1)
    } else {
        None
    }
}

#[via_fn]
proof fn heading_from_decreases(m: Seq<char>, i: int) {
    if 0 <= i <= m.len() {
        lemma_line_end_bounds(m, i);
    }
}

/// `t` without the heading markers `# ` at its start.
pub open spec fn strip_marks(t: Seq<char>) -> Seq<char>
    decreases t.len(),
{
    if t.len() >= 2 && t[0] == '#' && t[1] == ' ' {
        strip_marks(t.subrange(2, t.len() as int))
    } else {
        t
    }
}

/// The title of a task's markdown: its first heading line, trimmed, without
/// its markers; empty where there is no heading.
pub open spec fn title_of(m: Seq<char>) -> Seq<char> {
    match heading_from(m, 0) {
        Some(i) => strip_marks(trim(m.subrange(i, line_end(m, i)))),
        None => Seq::empty(),
    }
}

/// The body of a task's markdown: the lines that follow the heading line,
/// ended by `\n`, trimmed; all of the markdown, trimmed, where there is no heading.
pub open spec fn body_of(m: Seq<char>) -> Seq<char> {
    match heading_from(m, 0) {
        Some(i) => if line_end(m, i) < m.len() {
            trim(unix_lines(m.subrange(line_end(m, i) + 1, m.len() as int)))
        } else {
            Seq::empty()
        },
        None => trim(m),
    }
}

/// `t` with each `\r\n` line ending written as `\n`.
pub open spec fn unix_lines(t: Seq<char>) -> Seq<char> {
    replace_all(t, "\r\n"@, "\n"@)
}

/// `text` with its line endings written as `\n`, then trimmed.
fn trimmed_body(text: &str) -> (r: String)
    ensures
        r@ == trim(unix_lines(text@)),
{
    proof {
        reveal_strlit("\r\n");
    }
    let norm = replace_all_exec(text, "\r\n", "\n");
    let cs = chars_of(norm.as_str());
    let (c, d) = trim_bounds(&cs, 0, cs.len());
    assert(cs@.subrange(0, cs@.len() as int) =~= cs@);
    assert(cs@.subrange(0, cs@.len() as int).subrange(c as int, d as int) =~= cs@.subrange(
        c as int,
        d as int,
    ));
    slice_string(norm.as_str(), c, d)
}

/// Splits a task's markdown into its title and its body.
pub fn extract_title_and_body(markdown: &str) -> (r: (String, String))
    ensures
        r.0@ == title_of(markdown@),
        r.1@ == body_of(markdown@),
{
    let cs = chars_of(markdown);
    let newline = chars_of("\n");
    proof {
        reveal_strlit("\n");
        reveal_strlit("# ");
        assert(newline@ =~= seq!['\n']);
    }
    let n = cs.len();
    let mut i: usize = 0;
    loop
        invariant
            n == cs@.len(),
            cs@ == markdown@,
            newline@ == seq!['\n'],
            i <= n,
            heading_from(markdown@, 0) == heading_from(markdown@, i as int),
        decreases n - i,
    {
        let e = match find_exec(&cs, &newline, i) {
            Some(k) => k,
            None => n,
        };
        proof {
            lemma_line_end_bounds(cs@, i as int);
        }
        assert(e == line_end(cs@, i as int));
        let (a, b) = trim_bounds(&cs, i, e);
        let ghost t = trim(cs@.subrange(i as int, e as int));
        assert(t =~= cs@.subrange(a as int, b as int));
        let heading = b - a >= 2 && cs[a] == '#' && cs[a + 1] == ' ';
        proof {
            reveal_strlit("# ");
            assert("# "@ =~= seq!['#', ' ']);
            if heading {
                assert(t[0] == cs@[a as int] && t[1] == cs@[a + 1]);
                assert(t.subrange(0, 2) =~= "# "@);
            } else if occurs_at(t, "# "@, 0) {
                assert(t.subrange(0, 2)[0] == t[0] && t.subrange(0, 2)[1] == t[1]);
                assert(t[0] == cs@[a as int] && t[1] == cs@[a + 1]);
            }
        }
        if heading {
            let mut s: usize = a;
            while b - s >= 2 && cs[s] == '#' && cs[s + 1] == ' '
                invariant
                    a <= s <= b <= n,
                    n == cs@.len(),
                    strip_marks(t) == strip_marks(cs@.subrange(s as int, b as int)),
                decreases b - s,
            {
                assert(cs@.subrange(s as int, b as int).subrange(2, b - s) =~= cs@.subrange(
                    s + 2,
                    b as int,
                ));
                s = s + 2;
            }
            let title = slice_string(markdown, s, b);
            if e >= n {
                return (title, String::new());
            }
            return (title, trimmed_body(markdown.substring_char(e + 1, n)));
        }
        if e >= n {
            let (c, d) = trim_bounds(&cs, 0, n);
            assert(cs@.subrange(0, n as int) =~= cs@);
            assert(cs@.subrange(0, n as int).subrange(c as int, d as int) =~= cs@.subrange(
                c as int,
                d as int,
            ));
            return (String::new(), slice_string(markdown, c, d));
        }
        i = e + 1;
    }
}

/// The two `---` separators of a task file: the first occurrence, and the
/// first after it.
pub open spec fn task_separators(s: Seq<char>) -> Option<(int, int)> {
    match find_from(s, "---"@, 0) {
        None => None,
        Some(k1) => match find_from(s, "---"@, k1 + 3) {
            None => None,
            Some(k2) => Some((k1, k2)),
        },
    }
}

/// The markdown part of a task file: everything after the second separator, trimmed.
pub open spec fn task_markdown(s: Seq<char>, k2: int) -> Seq<char> {
    trim(s.subrange(k2 + 3, s.len() as int))
}

/// What reading the task file `s` gives: the block between its first two
/// `---`, trimmed, read as a task configuration, then title and body.
pub open spec fn task_file_read(s: Seq<char>, r: Result<TaskFile, ParseError>) -> bool {
    match task_separators(s) {
        None => r == Err::<TaskFile, ParseError>(ParseError::MissingSeparator),
        Some((k1, k2)) => match front_matter_of(trim(s.subrange(k1 + 3, k2))) {
            Err(x) => r == Err::<TaskFile, ParseError>(x),
            Ok(e) => if task_fields_ok(e) {
                r matches Ok(t) && task_config_of(e, t.config) && t.config.wf() && t.title@
                    == title_of(task_markdown(s, k2)) && t.body@ == body_of(task_markdown(s, k2))
            } else {
                r == Err::<TaskFile, ParseError>(ParseError::InvalidField)
            },
        },
    }
}

/// Reads a task file: a YAML block between the first two `---`, then markdown
/// whose first heading is the title and whose remainder is the body.
pub fn parse_task_file(content: &str) -> (r: Result<TaskFile, ParseError>)
    ensures
        task_file_read(content@, r),
{
    let cs = chars_of(content);
    let dashes = chars_of("---");
    proof {
        reveal_strlit("---");
    }
    let n = cs.len();
    let k1 = match find_exec(&cs, &dashes, 0) {
        None => return Err(ParseError::MissingSeparator),
        Some(k) => k,
    };
    proof {
        lemma_find_bounds(cs@, dashes@, 0);
    }
    let k2 = match find_exec(&cs, &dashes, k1 + 3) {
        None => return Err(ParseError::MissingSeparator),
        Some(k) => k,
    };
    proof {
        lemma_find_bounds(cs@, dashes@, k1 + 3);
    }
    let (a, b) = trim_bounds(&cs, k1 + 3, k2);
    assert(cs@.subrange(k1 + 3, k2 as int).subrange(a - (k1 + 3), b - (k1 + 3)) =~= cs@.subrange(
        a as int,
        b as int,
    ));
    let fm = match FrontMatter::parse(content.substring_char(a, b)) {
        Ok(fm) => fm,
        Err(e) => return Err(e),
    };
    let ghost entries = fm.entries@;
    let config = match TaskFileConfig::from_front_matter(fm) {
        Ok(c) => c,
        Err(e) => return Err(e),
    };
    let (c, d) = trim_bounds(&cs, k2 + 3, n);
    let markdown = content.substring_char(c, d);
    assert(markdown@ =~= task_markdown(content@, k2 as int));
    let (title, body) = extract_title_and_body(markdown);
    Ok(TaskFile { config, title, body })
}

} // verus!

//! The data read from a project document and from task files.
use vstd::prelude::*;
use crate::error::ParseError;
use crate::text::{chars_of, find_exec, find_from, lemma_find_bounds, slice_string, text_eq};
use crate::yaml::{
    FrontMatter, YamlNode, keys_avoid, keys_unique, lookup, number_as_u64,
    number_from_u64, number_u64, node_of, text_value, value_text, without_keys, lemma_lookup_push,
    lemma_lookup_finds, lemma_without_keys_append,
    lemma_without_keys_all_known, lemma_without_keys_none_known,
};

verus! {

/// Where a task stands in the tracker.
#[derive(Debug, Clone, Copy, PartialEq, Eq, Structural)]
pub enum TaskStatus {
    /// Tracked as this issue.
    Existing(u64),
    /// No issue yet.
    New,
}

impl TaskStatus {
    pub fn is_new(&self) -> (r: bool)
        ensures
            r == (*self is New),
    {
        match self {
            TaskStatus::New => true,
            TaskStatus::Existing(_) => false,
        }
    }

    pub fn issue_id(&self) -> (r: Option<u64>)
        ensures
            r == match *self {
                TaskStatus::Existing(n) => Some(n),
                TaskStatus::New => None::<u64>,
            },
    {
        match self {
            TaskStatus::Existing(id) => Some(*id),
            TaskStatus::New => None,
        }
    }
}

/// One task bullet of the project document.
#[derive(Debug, Clone)]
pub struct TaskItem {
    pub status: TaskStatus,
    pub path: String,
    pub description: String,
}

/// An issue as the tracker reports it.
#[derive(Debug, Clone)]
pub struct Issue {
    pub id: u64,
    pub number: u64,
    pub title: String,
    pub body: String,
    pub state: String,
}

/// The issues of `issues` whose state is `state`.
pub open spec fn count_in_state_spec(issues: Seq<Issue>, state: Seq<char>) -> nat
    decreases issues.len(),
{
    if issues.len() == 0 {
        0
    } else {
        count_in_state_spec(issues.drop_last(), state) + if issues.last().state@ == state {
            1nat
        } else {
            0nat
        }
    }
}

/// How many of `issues` are in state `state`.
pub fn count_in_state(issues: &Vec<Issue>, state: &str) -> (r: usize)
    ensures
        r == count_in_state_spec(issues@, state@),
{
    let mut n: usize = 0;
    let mut i: usize = 0;
    while i < issues.len()
        invariant
            i <= issues@.len(),
            n == count_in_state_spec(issues@.subrange(0, i as int), state@),
            n <= i,
        decreases issues.len() - i,
    {
        assert(issues@.subrange(0, i + 1).drop_last() =~= issues@.subrange(0, i as int));
        if text_eq(issues[i].state.as_str(), state) {
            n = n + 1;
        }
        i = i + 1;
    }
    assert(issues@.subrange(0, i as int) =~= issues@);
    n
}

/// `repo` as owner and name: the text around its only `/`.
pub open spec fn repo_parts(repo: Seq<char>) -> Option<(Seq<char>, Seq<char>)> {
    match find_from(repo, seq!['/'], 0) {
        None => None,
        Some(k) => if find_from(repo, seq!['/'], k + 1) is None {
            Some((repo.subrange(0, k), repo.subrange(k + 1, repo.len() as int)))
        } else {
            None
        },
    }
}

/// Splits an `owner/name` repository reference; anything with no `/`, or
/// with more than one, is refused.
pub fn split_repo(repo: &str) -> (r: Option<(String, String)>)
    ensures
        r is None <==> repo_parts(repo@) is None,
        r matches Some((o, n)) ==> repo_parts(repo@) == Some((o@, n@)),
{
    let cs = chars_of(repo);
    let slash = chars_of("/");
    proof {
        reveal_strlit("/");
        assert(slash@ =~= seq!['/']);
        lemma_find_bounds(cs@, slash@, 0);
    }
    let k = match find_exec(&cs, &slash, 0) {
        None => return None,
        Some(k) => k,
    };
    let n = cs.len();
    assert(k + 1 <= n);
    if find_exec(&cs, &slash, k + 1).is_some() {
        return None;
    }
    Some((slice_string(repo, 0, k), slice_string(repo, k + 1, n)))
}

pub open spec fn is_project_key(k: Seq<char>) -> bool {
    k == "backend"@ || k == "repo"@
}

pub open spec fn project_keys() -> spec_fn(Seq<char>) -> bool {
    |k: Seq<char>| is_project_key(k)
}

pub open spec fn is_task_key(k: Seq<char>) -> bool {
    k == "issue_id"@ || k == "type"@ || k == "tags"@ || k == "created_at"@ || k == "updated_at"@
}

pub open spec fn task_keys() -> spec_fn(Seq<char>) -> bool {
    |k: Seq<char>| is_task_key(k)
}

/// A string field may be absent, null or a string.
pub open spec fn text_field_ok(n: Option<YamlNode>) -> bool {
    match n {
        None => true,
        Some(YamlNode::Null) => true,
        Some(YamlNode::Text(_)) => true,
        _ => false,
    }
}

pub open spec fn text_field_value(n: Option<YamlNode>) -> Option<String> {
    match n {
        Some(YamlNode::Text(s)) => Some(s),
        _ => None,
    }
}

/// A list field may be absent, null or a sequence of strings.
pub open spec fn list_field_ok(n: Option<YamlNode>) -> bool {
    match n {
        None => true,
        Some(YamlNode::Null) => true,
        Some(YamlNode::List(items)) => forall|i: int|
            0 <= i < items@.len() ==> node_of(#[trigger] items@[i]) is Text,
        _ => false,
    }
}

/// `v` is a string value with the characters of `s`.
pub open spec fn text_is(v: serde_yaml::Value, s: String) -> bool {
    node_of(v) matches YamlNode::Text(x) && x@ == s@
}

/// `v` holds the strings of the list node `n`, or nothing where `n` is absent or null.
pub open spec fn list_field_matches(n: Option<YamlNode>, v: Option<Vec<String>>) -> bool {
    match n {
        Some(YamlNode::List(items)) => v matches Some(t) && t@.len() == items@.len() && forall|i: int|
            0 <= i < items@.len() ==> text_is(#[trigger] items@[i], t@[i]),
        _ => v is None,
    }
}

/// An issue id may be absent, null or a positive integer.
pub open spec fn number_field_ok(n: Option<YamlNode>) -> bool {
    match n {
        None => true,
        Some(YamlNode::Null) => true,
        Some(YamlNode::Number(x)) => number_u64(x) matches Some(k) && k >= 1,
        _ => false,
    }
}

/// The integer that a field holds, if any.
pub open spec fn number_field_value(n: Option<YamlNode>) -> Option<u64> {
    match n {
        Some(YamlNode::Number(x)) => number_u64(x),
        _ => None,
    }
}

fn text_field(fm: &FrontMatter, key: &str) -> (r: Result<Option<String>, ParseError>)
    ensures
        r.is_ok() == text_field_ok(lookup(fm.entries@, key@)),
        r matches Ok(v) ==> v == text_field_value(lookup(fm.entries@, key@)),
        r matches Err(e) ==> e == ParseError::InvalidField,
{
    match fm.position(key) {
        None => Ok(None),
        Some(i) => match &fm.entries[i].1 {
            YamlNode::Null => Ok(None),
            YamlNode::Text(s) => Ok(Some(s.clone())),
            _ => Err(ParseError::InvalidField),
        },
    }
}

fn list_field(fm: &FrontMatter, key: &str) -> (r: Result<Option<Vec<String>>, ParseError>)
    ensures
        r.is_ok() == list_field_ok(lookup(fm.entries@, key@)),
        r matches Ok(v) ==> list_field_matches(lookup(fm.entries@, key@), v),
        r matches Err(e) ==> e == ParseError::InvalidField,
{
    match fm.position(key) {
        None => Ok(None),
        Some(i) => match &fm.entries[i].1 {
            YamlNode::Null => Ok(None),
            YamlNode::List(items) => {
                let mut out: Vec<String> = Vec::new();
                let mut j: usize = 0;
                while j < items.len()
                    invariant
                        lookup(fm.entries@, key@) == Some(YamlNode::List(*items)),
                        j <= items@.len(),
                        out@.len() == j,
                        forall|m: int| 0 <= m < j ==> text_is(#[trigger] items@[m], out@[m]),
                    decreases items.len() - j,
                {
                    match value_text(&items[j]) {
                        Some(t) => out.push(t),
                        None => {
                            assert(!(node_of(items@[j as int]) is Text));
                            return Err(ParseError::InvalidField);
                        },
                    }
                    j = j + 1;
                }
                Ok(Some(out))
            },
            _ => Err(ParseError::InvalidField),
        },
    }
}

fn number_field(fm: &FrontMatter, key: &str) -> (r: Result<Option<u64>, ParseError>)
    ensures
        r.is_ok() == number_field_ok(lookup(fm.entries@, key@)),
        r matches Ok(v) ==> v == number_field_value(lookup(fm.entries@, key@)),
        r matches Err(e) ==> e == ParseError::InvalidField,
{
    match fm.position(key) {
        None => Ok(None),
        Some(i) => match &fm.entries[i].1 {
            YamlNode::Null => Ok(None),
            YamlNode::Number(x) => match number_as_u64(x) {
                Some(k) => if k >= 1 {
                    Ok(Some(k))
                } else {
                    Err(ParseError::InvalidField)
                },
                None => Err(ParseError::InvalidField),
            },
            _ => Err(ParseError::InvalidField),
        },
    }
}

/// Whether `k` names a field that a task file's configuration reads.
fn is_one_of_task_keys(k: &str) -> (r: bool)
    ensures
        r == is_task_key(k@),
{
    text_eq(k, "issue_id") || text_eq(k, "type") || text_eq(k, "tags") || text_eq(k, "created_at")
        || text_eq(k, "updated_at")
}

/// Whether `k` names a field that the project configuration reads.
fn is_one_of_project_keys(k: &str) -> (r: bool)
    ensures
        r == is_project_key(k@),
{
    text_eq(k, "backend") || text_eq(k, "repo")
}

pub proof fn lemma_without_keys_wf(e: Seq<(String, YamlNode)>, known: spec_fn(Seq<char>) -> bool)
    requires
        keys_unique(e),
    ensures
        keys_unique(without_keys(e, known)),
        keys_avoid(without_keys(e, known), known),
        forall|j: int|
            0 <= j < without_keys(e, known).len() ==> exists|m: int|
                0 <= m < e.len() && e[m] == #[trigger] without_keys(e, known)[j],
    decreases e.len(),
{
    if e.len() > 0 {
        let d = e.drop_first();
        assert forall|i: int, j: int| 0 <= i < j < d.len() implies d[i].0@ != d[j].0@ by {
            assert(d[i] == e[i + 1] && d[j] == e[j + 1]);
        }
        lemma_without_keys_wf(d, known);
        let w = without_keys(d, known);
        if !known(e[0].0@) {
            let x = seq![e[0]] + w;
            assert forall|j: int| 0 <= j < x.len() implies exists|m: int|
                0 <= m < e.len() && e[m] == #[trigger] x[j] by {
                if j == 0 {
                    assert(e[0] == x[0]);
                } else {
                    assert(x[j] == w[j - 1]);
                    let m = choose|m: int| 0 <= m < d.len() && d[m] == w[j - 1];
                    assert(e[m + 1] == x[j]);
                }
            }
            assert forall|i: int, j: int| 0 <= i < j < x.len() implies x[i].0@ != x[j].0@ by {
                if i == 0 {
                    assert(x[j] == w[j - 1]);
                    let m = choose|m: int| 0 <= m < d.len() && d[m] == w[j - 1];
                    assert(e[m + 1] == x[j]);
                } else {
                    assert(x[i] == w[i - 1] && x[j] == w[j - 1]);
                }
            }
            assert forall|i: int| 0 <= i < x.len() implies !known(#[trigger] x[i].0@) by {
                if i > 0 {
                    assert(x[i] == w[i - 1]);
                }
            }
        } else {
            assert forall|j: int| 0 <= j < w.len() implies exists|m: int|
                0 <= m < e.len() && e[m] == #[trigger] w[j] by {
                let m = choose|m: int| 0 <= m < d.len() && d[m] == w[j];
                assert(e[m + 1] == w[j]);
            }
        }
    }
}

/// The entries whose key is not a field that the configuration reads (a task
/// file's where `task` holds, the project's otherwise), in order.
fn unknown_entries(fm: FrontMatter, task: bool) -> (r: Vec<(String, YamlNode)>)
    ensures
        task ==> r@ == without_keys(fm.entries@, task_keys()),
        !task ==> r@ == without_keys(fm.entries@, project_keys()),
{
    let ghost known = if task { task_keys() } else { project_keys() };
    let ghost all = fm.entries@;
    let mut rest = fm.entries;
    let mut out: Vec<(String, YamlNode)> = Vec::new();
    assert(out@ + without_keys(rest@, known) =~= without_keys(all, known));
    while rest.len() > 0
        invariant
            known == (if task { task_keys() } else { project_keys() }),
            out@ + without_keys(rest@, known) == without_keys(all, known),
        decreases rest.len(),
    {
        let ghost before = rest@;
        let (k, v) = rest.remove(0);
        assert(before.drop_first() =~= rest@);
        assert(before[0] == (k, v));
        let skip = if task {
            is_one_of_task_keys(k.as_str())
        } else {
            is_one_of_project_keys(k.as_str())
        };
        if !skip {
            out.push((k, v));
            assert(out@ + without_keys(rest@, known) =~= without_keys(all, known));
        }
    }
    out
}

/// Why a required string field is refused: absent, or not a string.
pub open spec fn required_text_error(n: Option<YamlNode>) -> Option<ParseError> {
    match n {
        None => Some(ParseError::MissingField),
        Some(YamlNode::Text(_)) => None,
        _ => Some(ParseError::InvalidField),
    }
}

/// Why entries are no project configuration, checking `backend` first.
pub open spec fn project_config_error(e: Seq<(String, YamlNode)>) -> Option<ParseError> {
    match required_text_error(lookup(e, "backend"@)) {
        Some(x) => Some(x),
        None => required_text_error(lookup(e, "repo"@)),
    }
}

/// `c` holds what the entries `e` say.
pub open spec fn project_config_of(e: Seq<(String, YamlNode)>, c: ProjectConfig) -> bool {
    &&& lookup(e, "backend"@) == Some(YamlNode::Text(c.backend))
    &&& lookup(e, "repo"@) == Some(YamlNode::Text(c.repo))
    &&& c.extra@ == without_keys(e, project_keys())
}

/// The front matter of the project document.
#[derive(Debug)]
pub struct ProjectConfig {
    pub backend: String,
    pub repo: String,
    /// Keys other than `backend` and `repo`, in the order they were written.
    pub extra: Vec<(String, YamlNode)>,
}

impl ProjectConfig {
    pub open spec fn wf(&self) -> bool {
        keys_unique(self.extra@) && keys_avoid(self.extra@, project_keys())
    }

    /// `backend` and `repo` must be strings; the rest is kept as it is.
    pub fn from_front_matter(fm: FrontMatter) -> (r: Result<ProjectConfig, ParseError>)
        requires
            fm.wf(),
        ensures
            match project_config_error(fm.entries@) {
                Some(x) => r == Err::<ProjectConfig, ParseError>(x),
                None => r matches Ok(c) && c.wf() && project_config_of(fm.entries@, c),
            },
    {
        let backend = match FrontMatter::required_text(&fm, "backend") {
            Ok(s) => s,
            Err(e) => return Err(e),
        };
        let repo = match FrontMatter::required_text(&fm, "repo") {
            Ok(s) => s,
            Err(e) => return Err(e),
        };
        proof {
            lemma_without_keys_wf(fm.entries@, project_keys());
        }
        let extra = unknown_entries(fm, false);
        Ok(ProjectConfig { backend, repo, extra })
    }
}

impl FrontMatter {
    /// The string under `key`, which must be present.
    fn required_text(&self, key: &str) -> (r: Result<String, ParseError>)
        ensures
            match required_text_error(lookup(self.entries@, key@)) {
                Some(x) => r == Err::<String, ParseError>(x),
                None => r matches Ok(s) && lookup(self.entries@, key@) == Some(YamlNode::Text(s)),
            },
    {
        match self.position(key) {
            None => Err(ParseError::MissingField),
            Some(i) => match &self.entries[i].1 {
                YamlNode::Text(s) => Ok(s.clone()),
                _ => Err(ParseError::InvalidField),
            },
        }
    }
}

/// The front matter of a task file.
#[derive(Debug)]
pub struct TaskFileConfig {
    pub issue_id: Option<u64>,
    pub task_type: Option<String>,
    pub tags: Option<Vec<String>>,
    pub created_at: Option<String>,
    pub updated_at: Option<String>,
    /// Keys this crate does not read, in the order they were written.
    pub extra: Vec<(String, YamlNode)>,
}

/// The known fields of a task file's front matter have values of the right kind.
pub open spec fn task_fields_ok(e: Seq<(String, YamlNode)>) -> bool {
    &&& number_field_ok(lookup(e, "issue_id"@))
    &&& text_field_ok(lookup(e, "type"@))
    &&& list_field_ok(lookup(e, "tags"@))
    &&& text_field_ok(lookup(e, "created_at"@))
    &&& text_field_ok(lookup(e, "updated_at"@))
}

/// `c` holds what the entries `e` say, field by field.
pub open spec fn task_config_of(e: Seq<(String, YamlNode)>, c: TaskFileConfig) -> bool {
    &&& c.issue_id == number_field_value(lookup(e, "issue_id"@))
    &&& c.task_type == text_field_value(lookup(e, "type"@))
    &&& list_field_matches(lookup(e, "tags"@), c.tags)
    &&& c.created_at == text_field_value(lookup(e, "created_at"@))
    &&& c.updated_at == text_field_value(lookup(e, "updated_at"@))
    &&& c.extra@ == without_keys(e, task_keys())
}

/// The entries `e` are what `c` writes: its known fields first, then its
/// other keys unchanged.
pub open spec fn written_from(c: TaskFileConfig, e: Seq<(String, YamlNode)>) -> bool {
    let k = e.len() - c.extra@.len();
    &&& 0 <= k
    &&& e.subrange(k, e.len() as int) == c.extra@
    &&& forall|i: int| 0 <= i < k ==> is_task_key(#[trigger] e[i].0@)
}

pub open spec fn text_node(v: Option<String>) -> Option<YamlNode> {
    match v {
        Some(t) => Some(YamlNode::Text(t)),
        None => None,
    }
}

/// The known fields of `c` are written in `e` as they are: strings as
/// strings, tags as a sequence of strings, the issue id as a number.
pub open spec fn fields_written(c: TaskFileConfig, e: Seq<(String, YamlNode)>) -> bool {
    &&& (c.issue_id is None <==> lookup(e, "issue_id"@) is None)
    &&& (c.issue_id is Some ==> (lookup(e, "issue_id"@) matches Some(YamlNode::Number(x))
        && number_u64(x) == c.issue_id))
    &&& lookup(e, "type"@) == text_node(c.task_type)
    &&& list_field_matches(lookup(e, "tags"@), c.tags)
    &&& (c.tags is None ==> lookup(e, "tags"@) is None)
    &&& lookup(e, "created_at"@) == text_node(c.created_at)
    &&& lookup(e, "updated_at"@) == text_node(c.updated_at)
}

/// The known fields of a task file have five different names.
proof fn lemma_task_keys_distinct()
    ensures
        "issue_id"@ != "type"@,
        "issue_id"@ != "tags"@,
        "issue_id"@ != "created_at"@,
        "issue_id"@ != "updated_at"@,
        "type"@ != "tags"@,
        "type"@ != "created_at"@,
        "type"@ != "updated_at"@,
        "tags"@ != "created_at"@,
        "tags"@ != "updated_at"@,
        "created_at"@ != "updated_at"@,
{
    reveal_strlit("issue_id");
    reveal_strlit("type");
    reveal_strlit("tags");
    reveal_strlit("created_at");
    reveal_strlit("updated_at");
    assert("issue_id"@.len() == 8 && "type"@.len() == 4 && "tags"@.len() == 4);
    assert("created_at"@.len() == 10 && "updated_at"@.len() == 10);
    assert("type"@[1] != "tags"@[1]);
    assert("created_at"@[0] != "updated_at"@[0]);
}

/// Tags as the items of a YAML sequence.
fn tag_items(tags: Vec<String>) -> (r: Vec<serde_yaml::Value>)
    ensures
        r@.len() == tags@.len(),
        forall|i: int| 0 <= i < tags@.len() ==> text_is(#[trigger] r@[i], tags@[i]),
{
    let ghost all = tags@;
    let mut rest = tags;
    let mut items: Vec<serde_yaml::Value> = Vec::new();
    while rest.len() > 0
        invariant
            all == tags@,
            items@.len() + rest@.len() == all.len(),
            rest@ == all.subrange(items@.len() as int, all.len() as int),
            forall|i: int| 0 <= i < items@.len() ==> text_is(#[trigger] items@[i], all[i]),
        decreases rest.len(),
    {
        let ghost n = items@.len();
        let t = rest.remove(0);
        assert(t == all[n as int]);
        items.push(text_value(t));
    }
    items
}

/// Pushing an entry under a key that is not there yet keeps the keys unique.
proof fn lemma_unique_push(e: Seq<(String, YamlNode)>, x: (String, YamlNode))
    requires
        keys_unique(e),
        lookup(e, x.0@) is None,
    ensures
        keys_unique(e.push(x)),
{
    assert forall|i: int| 0 <= i < e.len() implies e[i].0@ != x.0@ by {
        if e[i].0@ == x.0@ {
            lemma_lookup_finds(e, i, x.0@);
        }
    }
    lemma_unique_push_distinct(e, x);
}

proof fn lemma_unique_push_distinct(e: Seq<(String, YamlNode)>, x: (String, YamlNode))
    requires
        keys_unique(e),
        forall|i: int| 0 <= i < e.len() ==> e[i].0@ != x.0@,
    ensures
        keys_unique(e.push(x)),
{
    assert forall|i: int, j: int| 0 <= i < j < e.push(x).len() implies e.push(x)[i].0@ != e.push(x)[j].0@ by {
        assert(e.push(x)[i] == e[i]);
        if j < e.len() {
            assert(e.push(x)[j] == e[j]);
        }
    }
}

/// The entries written for a configuration read back as one without error:
/// `from_front_matter` is owed `Ok` on them.
pub proof fn lemma_fields_written_ok(c: TaskFileConfig, e: Seq<(String, YamlNode)>)
    requires
        fields_written(c, e),
        c.issue_id != Some(0u64),
    ensures
        task_fields_ok(e),
{
    if let Some(YamlNode::List(items)) = lookup(e, "tags"@) {
        let t = c.tags->Some_0;
        assert forall|i: int| 0 <= i < items@.len() implies node_of(#[trigger] items@[i]) is Text by {
            assert(text_is(items@[i], t@[i]));
        }
    }
}

/// Pushing an entry whose key is no known field keeps the known fields as written.
proof fn lemma_push_keeps_fields(c: TaskFileConfig, e: Seq<(String, YamlNode)>, x: (String, YamlNode))
    requires
        fields_written(c, e),
        !is_task_key(x.0@),
    ensures
        fields_written(c, e.push(x)),
{
    lemma_lookup_push(e, x, "issue_id"@);
    lemma_lookup_push(e, x, "type"@);
    lemma_lookup_push(e, x, "tags"@);
    lemma_lookup_push(e, x, "created_at"@);
    lemma_lookup_push(e, x, "updated_at"@);
}

impl TaskFileConfig {
    pub open spec fn wf(&self) -> bool {
        keys_unique(self.extra@) && keys_avoid(self.extra@, task_keys())
    }

    /// Reads the known fields; every other key goes to `extra` unchanged.
    pub fn from_front_matter(fm: FrontMatter) -> (r: Result<TaskFileConfig, ParseError>)
        requires
            fm.wf(),
        ensures
            r matches Ok(c) ==> c.wf() && task_config_of(fm.entries@, c),
            r.is_ok() == task_fields_ok(fm.entries@),
            r matches Err(e) ==> e == ParseError::InvalidField,
    {
        let issue_id = match number_field(&fm, "issue_id") {
            Ok(v) => v,
            Err(e) => return Err(e),
        };
        let task_type = match text_field(&fm, "type") {
            Ok(v) => v,
            Err(e) => return Err(e),
        };
        let tags = match list_field(&fm, "tags") {
            Ok(v) => v,
            Err(e) => return Err(e),
        };
        let created_at = match text_field(&fm, "created_at") {
            Ok(v) => v,
            Err(e) => return Err(e),
        };
        let updated_at = match text_field(&fm, "updated_at") {
            Ok(v) => v,
            Err(e) => return Err(e),
        };
        proof {
            lemma_without_keys_wf(fm.entries@, task_keys());
        }
        let extra = unknown_entries(fm, true);
        Ok(TaskFileConfig { issue_id, task_type, tags, created_at, updated_at, extra })
    }

    /// The front matter this configuration writes: the fields that are set,
    /// in a fixed order, then the other keys as they were.
    pub fn to_front_matter(self) -> (r: FrontMatter)
        requires
            self.wf(),
        ensures
            written_from(self, r.entries@),
            fields_written(self, r.entries@),
            r.wf(),
            self.issue_id != Some(0u64) ==> task_fields_ok(r.entries@),
    {
        let ghost c = self;
        let ghost extra = self.extra@;
        let mut entries: Vec<(String, YamlNode)> = Vec::new();
        proof {
            lemma_task_keys_distinct();
        }
        if let Some(id) = self.issue_id {
            let x = ("issue_id".to_owned(), YamlNode::Number(number_from_u64(id)));
            proof {
                assert forall|k: Seq<char>| is_task_key(k) implies #[trigger] lookup(entries@.push(x), k) == (
                    if k == "issue_id"@ { Some(x.1) } else { None }) by {
                    lemma_lookup_push(entries@, x, k);
                }
            }
            proof {
                lemma_unique_push(entries@, x);
            }
            entries.push(x);
        }
        if let Some(t) = self.task_type {
            let x = ("type".to_owned(), YamlNode::Text(t));
            proof {
                assert(lookup(entries@, "type"@) is None);
                assert forall|k: Seq<char>| is_task_key(k) implies #[trigger] lookup(entries@.push(x), k) == (
                    if k == "type"@ { Some(x.1) } else { lookup(entries@, k) }) by {
                    lemma_lookup_push(entries@, x, k);
                }
            }
            proof {
                lemma_unique_push(entries@, x);
            }
            entries.push(x);
        }
        if let Some(tags) = self.tags {
            let items = tag_items(tags);
            let x = ("tags".to_owned(), YamlNode::List(items));
            proof {
                assert(lookup(entries@, "tags"@) is None);
                assert forall|k: Seq<char>| is_task_key(k) implies #[trigger] lookup(entries@.push(x), k) == (
                    if k == "tags"@ { Some(x.1) } else { lookup(entries@, k) }) by {
                    lemma_lookup_push(entries@, x, k);
                }
            }
            proof {
                lemma_unique_push(entries@, x);
            }
            entries.push(x);
        }
        if let Some(t) = self.created_at {
            let x = ("created_at".to_owned(), YamlNode::Text(t));
            proof {
                assert(lookup(entries@, "created_at"@) is None);
                assert forall|k: Seq<char>| is_task_key(k) implies #[trigger] lookup(entries@.push(x), k) == (
                    if k == "created_at"@ { Some(x.1) } else { lookup(entries@, k) }) by {
                    lemma_lookup_push(entries@, x, k);
                }
            }
            proof {
                lemma_unique_push(entries@, x);
            }
            entries.push(x);
        }
        if let Some(t) = self.updated_at {
            let x = ("updated_at".to_owned(), YamlNode::Text(t));
            proof {
                assert(lookup(entries@, "updated_at"@) is None);
                assert forall|k: Seq<char>| is_task_key(k) implies #[trigger] lookup(entries@.push(x), k) == (
                    if k == "updated_at"@ { Some(x.1) } else { lookup(entries@, k) }) by {
                    lemma_lookup_push(entries@, x, k);
                }
            }
            proof {
                lemma_unique_push(entries@, x);
            }
            entries.push(x);
        }
        assert(fields_written(c, entries@));
        let k = entries.len();
        assert(forall|i: int| 0 <= i < k ==> is_task_key(#[trigger] entries@[i].0@));
        let mut rest = self.extra;
        while rest.len() > 0
            invariant
                keys_unique(entries@),
                keys_unique(extra),
                forall|i: int, j: int|
                    0 <= i < entries@.len() && 0 <= j < rest@.len() ==> (#[trigger] entries@[i]).0@
                        != (#[trigger] rest@[j]).0@,
                k <= entries@.len(),
                forall|i: int| 0 <= i < k ==> is_task_key(#[trigger] entries@[i].0@),
                entries@.subrange(k as int, entries@.len() as int) + rest@ == extra,
                fields_written(c, entries@),
                keys_avoid(extra, task_keys()),
            decreases rest.len(),
        {
            let ghost before = rest@;
            let item = rest.remove(0);
            proof {
                assert(before =~= seq![item] + rest@);
                assert(extra[entries@.len() - k] == item) by {
                    assert((entries@.subrange(k as int, entries@.len() as int) + before)[entries@.len() - k] == before[0]);
                }
                assert(!(task_keys())(extra[entries@.len() - k].0@));
                lemma_push_keeps_fields(c, entries@, item);
                assert forall|i: int| 0 <= i < entries@.len() implies entries@[i].0@ != item.0@ by {
                    assert(before[0] == item);
                }
                lemma_unique_push_distinct(entries@, item);
                assert forall|j: int| 0 <= j < rest@.len() implies item.0@ != (#[trigger] rest@[j]).0@ by {
                    assert(rest@[j] == before[j + 1]);
                    let m = entries@.len() - k;
                    assert(before =~= extra.subrange(m, extra.len() as int)) by {
                        assert(entries@.subrange(k as int, entries@.len() as int).len() == m);
                        assert forall|q: int| 0 <= q < before.len() implies before[q] == extra[m + q] by {
                            assert((entries@.subrange(k as int, entries@.len() as int) + before)[m + q] == before[q]);
                        }
                    }
                    assert(extra[m] == item && extra[m + 1 + j] == rest@[j]);
                }
                assert forall|i: int, j: int| 0 <= i < entries@.len() && 0 <= j < rest@.len() implies
                    entries@[i].0@ != rest@[j].0@ by {
                    assert(rest@[j] == before[j + 1]);
                }
            }
            let ghost e_before = entries@;
            entries.push(item);
            assert forall|i: int, j: int| 0 <= i < entries@.len() && 0 <= j < rest@.len() implies
                (#[trigger] entries@[i]).0@ != (#[trigger] rest@[j]).0@ by {
                if i < e_before.len() {
                    assert(entries@[i] == e_before[i]);
                } else {
                    assert(entries@[i] == item);
                }
            }
            assert(entries@.subrange(k as int, entries@.len() as int) =~= entries@.subrange(
                k as int,
                entries@.len() - 1,
            ).push(item));
            assert(entries@.subrange(k as int, entries@.len() as int) + rest@ =~= extra);
        }
        assert(rest@.len() == 0);
        assert(entries@.subrange(k as int, entries@.len() as int) =~= extra);
        let r = FrontMatter { entries };
        proof {
            if c.issue_id != Some(0u64) {
                lemma_fields_written_ok(c, r.entries@);
            }
        }
        r
    }
}

/// Rewriting a task file's front matter keeps every key that this crate does
/// not read, with its value: reading back the entries that a configuration
/// writes gives its `extra` again.
pub proof fn lemma_unknown_keys_survive_rewrite(
    c: TaskFileConfig,
    written: Seq<(String, YamlNode)>,
    read_back: TaskFileConfig,
)
    requires
        c.wf(),
        written_from(c, written),
        task_config_of(written, read_back),
    ensures
        read_back.extra@ == c.extra@,
{
    let k = written.len() - c.extra@.len();
    let head = written.subrange(0, k);
    let tail = written.subrange(k, written.len() as int);
    assert(written =~= head + tail);
    lemma_without_keys_append(head, tail, task_keys());
    assert forall|i: int| 0 <= i < head.len() implies (task_keys())(#[trigger] head[i].0@) by {
        assert(head[i] == written[i]);
    }
    lemma_without_keys_all_known(head, task_keys());
    lemma_without_keys_none_known(tail, task_keys());
    assert(Seq::<(String, YamlNode)>::empty() + tail =~= tail);
}

/// Reading back the entries that a configuration writes gives its string
/// fields and its tags again, and an issue id exactly where it had one.
pub proof fn lemma_known_fields_read_back(
    c: TaskFileConfig,
    written: Seq<(String, YamlNode)>,
    read_back: TaskFileConfig,
)
    requires
        fields_written(c, written),
        task_config_of(written, read_back),
    ensures
        read_back.task_type == c.task_type,
        read_back.created_at == c.created_at,
        read_back.updated_at == c.updated_at,
        read_back.issue_id == c.issue_id,
        c.tags is None ==> read_back.tags is None,
        c.tags matches Some(t) ==> (read_back.tags matches Some(u) && u@.len() == t@.len()
            && forall|i: int| 0 <= i < t@.len() ==> (#[trigger] u@[i])@ == t@[i]@),
{
    if let Some(t) = c.tags {
        if let Some(YamlNode::List(items)) = lookup(written, "tags"@) {
            let u = read_back.tags->Some_0;
            assert forall|i: int| 0 <= i < t@.len() implies (#[trigger] u@[i])@ == t@[i]@ by {
                assert(text_is(items@[i], t@[i]));
                assert(text_is(items@[i], u@[i]));
            }
        }
    }
}

/// A task file: its front matter, the text of its first level-one heading,
/// and what follows that heading.
#[derive(Debug)]
pub struct TaskFile {
    pub config: TaskFileConfig,
    pub title: String,
    pub body: String,
}

/// A parsed project document.
#[derive(Debug)]
pub struct ProjectMd {
    pub config: ProjectConfig,
    pub tasks: Vec<TaskItem>,
}

} // verus!

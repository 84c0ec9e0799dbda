use vstd::prelude::*;

verus! {

/// Lifecycle state of a task. The declaration order is the lexicographic
/// order of the state names ("completed" < "failed" < "queued" < "running").
#[derive(Clone, Copy, Debug, PartialEq, Eq, Structural)]
pub enum Status {
    Completed,
    Failed,
    Queued,
    Running,
}

/// Position of a status in the ordering key.
pub open spec fn status_rank(s: Status) -> nat {
    match s {
        Status::Completed => 0,
        Status::Failed => 1,
        Status::Queued => 2,
        Status::Running => 3,
    }
}

/// The name under which a status is shown and persisted.
pub open spec fn status_name(s: Status) -> Seq<char> {
    match s {
        Status::Completed => "completed"@,
        Status::Failed => "failed"@,
        Status::Queued => "queued"@,
        Status::Running => "running"@,
    }
}

impl Status {
    /// The persisted name of the status.
    pub fn as_str(&self) -> (r: &'static str)
        ensures
            r@ == status_name(*self),
    {
        match self {
            Status::Completed => "completed",
            Status::Failed => "failed",
            Status::Queued => "queued",
            Status::Running => "running",
        }
    }

    /// The status with the given persisted name, if any.
    pub fn from_name(name: &str) -> (r: Option<Status>)
        ensures
            r is Some ==> status_name(r->0) == name@,
            r is None ==> forall|s: Status| status_name(s) != name@,
    {
        proof {
            reveal_strlit("completed");
            reveal_strlit("failed");
            reveal_strlit("queued");
            reveal_strlit("running");
        }
        let n = String::from_str(name);
        if n.eq(&String::from_str("completed")) {
            Some(Status::Completed)
        } else if n.eq(&String::from_str("failed")) {
            Some(Status::Failed)
        } else if n.eq(&String::from_str("queued")) {
            Some(Status::Queued)
        } else if n.eq(&String::from_str("running")) {
            Some(Status::Running)
        } else {
            assert forall|s: Status| status_name(s) != name@ by {
                match s {
                    Status::Completed => {},
                    Status::Failed => {},
                    Status::Queued => {},
                    Status::Running => {},
                }
            }
            None
        }
    }

    fn rank(&self) -> (r: u8)
        ensures
            r as nat == status_rank(*self),
    {
        match self {
            Status::Completed => 0,
            Status::Failed => 1,
            Status::Queued => 2,
            Status::Running => 3,
        }
    }
}

/// One submitted command and its lifecycle state.
#[derive(Debug)]
pub struct Task {
    pub name: String,
    pub command: String,
    pub status: Status,
    pub start_time: Option<String>,
    pub end_time: Option<String>,
    pub error_message: Option<String>,
    pub retries: u32,
}

/// Mathematical model of a task.
pub ghost struct TaskView {
    pub name: Seq<char>,
    pub command: Seq<char>,
    pub status: Status,
    pub start_time: Option<Seq<char>>,
    pub end_time: Option<Seq<char>>,
    pub error_message: Option<Seq<char>>,
    pub retries: u32,
}

pub open spec fn opt_view(o: Option<String>) -> Option<Seq<char>> {
    match o {
        Some(s) => Some(s@),
        None => None,
    }
}

impl View for Task {
    type V = TaskView;

    open spec fn view(&self) -> TaskView {
        TaskView {
            name: self.name@,
            command: self.command@,
            status: self.status,
            start_time: opt_view(self.start_time),
            end_time: opt_view(self.end_time),
            error_message: opt_view(self.error_message),
            retries: self.retries,
        }
    }
}

/// Lexicographic order on character sequences (by code point).
pub open spec fn chars_lt(a: Seq<char>, b: Seq<char>) -> bool
    decreases a.len(),
{
    if a.len() == 0 {
        b.len() > 0
    } else if b.len() == 0 {
        false
    } else if a[0] != b[0] {
        a[0] < b[0]
    } else {
        chars_lt(a.drop_first(), b.drop_first())
    }
}

/// Order on optional text: an absent value precedes every present one.
pub open spec fn opt_lt(a: Option<Seq<char>>, b: Option<Seq<char>>) -> bool {
    match (a, b) {
        (None, Some(_)) => true,
        (Some(x), Some(y)) => chars_lt(x, y),
        _ => false,
    }
}

/// The composite ordering key: name, command, status, start time, end time,
/// error message, retries, each compared in turn.
pub open spec fn task_lt(a: TaskView, b: TaskView) -> bool {
    if a.name != b.name {
        chars_lt(a.name, b.name)
    } else if a.command != b.command {
        chars_lt(a.command, b.command)
    } else if a.status != b.status {
        status_rank(a.status) < status_rank(b.status)
    } else if a.start_time != b.start_time {
        opt_lt(a.start_time, b.start_time)
    } else if a.end_time != b.end_time {
        opt_lt(a.end_time, b.end_time)
    } else if a.error_message != b.error_message {
        opt_lt(a.error_message, b.error_message)
    } else {
        a.retries < b.retries
    }
}

pub proof fn lemma_chars_lt_irreflexive(a: Seq<char>)
    ensures
        !chars_lt(a, a),
    decreases a.len(),
{
    if a.len() > 0 {
        lemma_chars_lt_irreflexive(a.drop_first());
    }
}

pub proof fn lemma_chars_lt_transitive(a: Seq<char>, b: Seq<char>, c: Seq<char>)
    requires
        chars_lt(a, b),
        chars_lt(b, c),
    ensures
        chars_lt(a, c),
    decreases a.len(),
{
    if a.len() > 0 && b.len() > 0 && c.len() > 0 && a[0] == b[0] && b[0] == c[0] {
        lemma_chars_lt_transitive(a.drop_first(), b.drop_first(), c.drop_first());
    }
}

pub proof fn lemma_chars_lt_total(a: Seq<char>, b: Seq<char>)
    requires
        a != b,
    ensures
        chars_lt(a, b) || chars_lt(b, a),
    decreases a.len(),
{
    if a.len() > 0 && b.len() > 0 && a[0] == b[0] {
        if a.drop_first() == b.drop_first() {
            assert(a =~= seq![a[0]] + a.drop_first());
            assert(b =~= seq![b[0]] + b.drop_first());
        }
        lemma_chars_lt_total(a.drop_first(), b.drop_first());
    } else if a.len() == 0 && b.len() == 0 {
        assert(a =~= b);
    }
}

pub proof fn lemma_chars_lt_asymmetric(a: Seq<char>, b: Seq<char>)
    requires
        chars_lt(a, b),
    ensures
        !chars_lt(b, a),
{
    if chars_lt(b, a) {
        lemma_chars_lt_transitive(a, b, a);
        lemma_chars_lt_irreflexive(a);
    }
}

proof fn lemma_opt_lt_facts(a: Option<Seq<char>>, b: Option<Seq<char>>, c: Option<Seq<char>>)
    ensures
        !opt_lt(a, a),
        opt_lt(a, b) && opt_lt(b, c) ==> opt_lt(a, c),
        a != b ==> opt_lt(a, b) || opt_lt(b, a),
        opt_lt(a, b) ==> !opt_lt(b, a),
{
    if let Some(x) = a {
        lemma_chars_lt_irreflexive(x);
        if let Some(y) = b {
            if x != y {
                lemma_chars_lt_total(x, y);
            }
            if chars_lt(x, y) {
                lemma_chars_lt_asymmetric(x, y);
            }
            if let Some(z) = c {
                if chars_lt(x, y) && chars_lt(y, z) {
                    lemma_chars_lt_transitive(x, y, z);
                }
            }
        }
    }
}

/// The composite key is a strict total order on task models.
pub proof fn lemma_task_order(a: TaskView, b: TaskView, c: TaskView)
    ensures
        !task_lt(a, a),
        task_lt(a, b) && task_lt(b, c) ==> task_lt(a, c),
        a != b ==> task_lt(a, b) || task_lt(b, a),
        task_lt(a, b) ==> !task_lt(b, a),
{
    lemma_chars_lt_irreflexive(a.name);
    lemma_chars_lt_irreflexive(a.command);
    if a.name != b.name {
        lemma_chars_lt_total(a.name, b.name);
        if chars_lt(a.name, b.name) {
            lemma_chars_lt_asymmetric(a.name, b.name);
        }
    }
    if a.command != b.command {
        lemma_chars_lt_total(a.command, b.command);
        if chars_lt(a.command, b.command) {
            lemma_chars_lt_asymmetric(a.command, b.command);
        }
    }
    if chars_lt(a.name, b.name) && chars_lt(b.name, c.name) {
        lemma_chars_lt_transitive(a.name, b.name, c.name);
    }
    if chars_lt(a.command, b.command) && chars_lt(b.command, c.command) {
        lemma_chars_lt_transitive(a.command, b.command, c.command);
    }
    if a.name != c.name && a.name == b.name {
        lemma_chars_lt_total(a.name, c.name);
    }
    lemma_opt_lt_facts(a.start_time, b.start_time, c.start_time);
    lemma_opt_lt_facts(a.end_time, b.end_time, c.end_time);
    lemma_opt_lt_facts(a.error_message, b.error_message, c.error_message);
    if task_lt(a, b) && task_lt(b, c) {
        if a.name != b.name && b.name == c.name {
        } else if a.name == b.name && b.name != c.name {
        } else if a.name != b.name && b.name != c.name && a.name == c.name {
            lemma_chars_lt_asymmetric(a.name, b.name);
        }
    }
}

/// Compares two strings in lexicographic order of their characters.
pub fn str_less(a: &str, b: &str) -> (r: bool)
    ensures
        r == chars_lt(a@, b@),
{
    let la = a.unicode_len();
    let lb = b.unicode_len();
    let mut i: usize = 0;
    assert(a@.subrange(0, la as int) =~= a@);
    assert(b@.subrange(0, lb as int) =~= b@);
    while i < la && i < lb
        invariant
            i <= la,
            i <= lb,
            la == a@.len(),
            lb == b@.len(),
            chars_lt(a@, b@) == chars_lt(a@.subrange(i as int, la as int), b@.subrange(i as int, lb as int)),
        decreases la - i,
    {
        let ca = a.get_char(i);
        let cb = b.get_char(i);
        if ca != cb {
            return ca < cb;
        }
        assert(a@.subrange(i as int, la as int).drop_first() =~= a@.subrange(i + 1, la as int));
        assert(b@.subrange(i as int, lb as int).drop_first() =~= b@.subrange(i + 1, lb as int));
        i = i + 1;
    }
    i == la && i < lb
}

fn opt_less(a: &Option<String>, b: &Option<String>) -> (r: bool)
    ensures
        r == opt_lt(opt_view(*a), opt_view(*b)),
{
    match (a, b) {
        (None, Some(_)) => true,
        (Some(x), Some(y)) => str_less(x.as_str(), y.as_str()),
        _ => false,
    }
}

fn opt_eq(a: &Option<String>, b: &Option<String>) -> (r: bool)
    ensures
        r == (opt_view(*a) == opt_view(*b)),
{
    match (a, b) {
        (None, None) => true,
        (Some(x), Some(y)) => x.eq(y),
        _ => false,
    }
}

impl Task {
    /// A freshly submitted task: queued, never started, no retries.
    pub open spec fn submitted(name: Seq<char>, command: Seq<char>) -> TaskView {
        TaskView {
            name,
            command,
            status: Status::Queued,
            start_time: None,
            end_time: None,
            error_message: None,
            retries: 0,
        }
    }

    pub fn new(name: &str, command: &str) -> (r: Task)
        ensures
            r@ == Task::submitted(name@, command@),
    {
        Task {
            name: name.to_string(),
            command: command.to_string(),
            status: Status::Queued,
            start_time: None,
            end_time: None,
            error_message: None,
            retries: 0,
        }
    }

    /// Whether `self` precedes `other` under the composite ordering key.
    pub fn is_less(&self, other: &Task) -> (r: bool)
        ensures
            r == task_lt(self@, other@),
    {
        if self.name != other.name {
            str_less(self.name.as_str(), other.name.as_str())
        } else if self.command != other.command {
            str_less(self.command.as_str(), other.command.as_str())
        } else if self.status != other.status {
            self.status.rank() < other.status.rank()
        } else if !opt_eq(&self.start_time, &other.start_time) {
            opt_less(&self.start_time, &other.start_time)
        } else if !opt_eq(&self.end_time, &other.end_time) {
            opt_less(&self.end_time, &other.end_time)
        } else if !opt_eq(&self.error_message, &other.error_message) {
            opt_less(&self.error_message, &other.error_message)
        } else {
            self.retries < other.retries
        }
    }

    /// A copy with the same model.
    pub fn duplicate(&self) -> (r: Task)
        ensures
            r@ == self@,
    {
        Task {
            name: self.name.clone(),
            command: self.command.clone(),
            status: self.status,
            start_time: self.start_time.clone(),
            end_time: self.end_time.clone(),
            error_message: self.error_message.clone(),
            retries: self.retries,
        }
    }
}

} // verus!

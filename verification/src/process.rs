//! Process bookkeeping: the processes tab view, the registry of process
//! groups to clean up, restart back-off, and the decisions of the process
//! manager (what to run, whether to restart, how long to wait).
use vstd::prelude::*;
use std::collections::HashSet;
use std::time::Duration;
use std::time::Instant;
use crate::config::{pair_texts, RestartPolicy};
use crate::entry::texts;
use crate::number::{decimal, format_usize, parse_u32, parsed_u32};
use crate::text::{chars_of, clone_strings, last_position, rfind_char, split_whitespace, str_eq, string_from_range, words};

verus! {

broadcast use vstd::std_specs::hash::group_hash_axioms;

/// What the processes tab shows.
#[derive(Debug, Clone, Copy, PartialEq, Eq, Structural)]
pub enum ProcessesView {
    List,
    Output,
}

impl Default for ProcessesView {
    fn default() -> (v: Self)
        ensures
            v == ProcessesView::List,
    {
        ProcessesView::List
    }
}

/// The other view.
pub open spec fn other_view(v: ProcessesView) -> ProcessesView {
    match v {
        ProcessesView::List => ProcessesView::Output,
        ProcessesView::Output => ProcessesView::List,
    }
}

/// State of the processes tab.
#[derive(Debug)]
pub struct ProcessesTabState {
    pub view: ProcessesView,
    pub selected_index: usize,
    pub output_scroll_offset: usize,
}

impl Default for ProcessesTabState {
    fn default() -> (s: Self)
        ensures
            s.view == ProcessesView::List,
            s.selected_index == 0,
            s.output_scroll_offset == 0,
    {
        ProcessesTabState { view: ProcessesView::List, selected_index: 0, output_scroll_offset: 0 }
    }
}

impl ProcessesTabState {
    /// Whether the output of a process is shown.
    pub fn is_output_view(&self) -> (b: bool)
        ensures
            b == (self.view == ProcessesView::Output),
    {
        self.view == ProcessesView::Output
    }

    /// Moves the process cursor up one row in a list of `count` processes,
    /// stopping at the top (an empty list keeps it where it is).
    pub fn select_previous(&mut self, count: usize)
        ensures
            final(self).selected_index == if count > 0 && old(self).selected_index > 0 {
                old(self).selected_index - 1
            } else {
                old(self).selected_index as int
            },
            final(self).view == old(self).view,
            final(self).output_scroll_offset == old(self).output_scroll_offset,
    {
        if count > 0 && self.selected_index > 0 {
            self.selected_index -= 1;
        }
    }

    /// Moves the process cursor down one row in a list of `count` processes,
    /// stopping at the last row.
    pub fn select_next(&mut self, count: usize)
        ensures
            final(self).selected_index == if count > 0 && old(self).selected_index < count - 1 {
                old(self).selected_index + 1
            } else {
                old(self).selected_index as int
            },
            final(self).view == old(self).view,
            final(self).output_scroll_offset == old(self).output_scroll_offset,
    {
        if count > 0 && self.selected_index < count - 1 {
            self.selected_index += 1;
        }
    }

    /// Switches between the list and the output.
    pub fn toggle_view(&mut self)
        ensures
            final(self).view == other_view(old(self).view),
            final(self).selected_index == old(self).selected_index,
            final(self).output_scroll_offset == old(self).output_scroll_offset,
    {
        self.view = match self.view {
            ProcessesView::List => ProcessesView::Output,
            ProcessesView::Output => ProcessesView::List,
        };
    }
}

/// Switching the view twice shows the same view again.
pub proof fn law_toggle_view_twice(v: ProcessesView)
    ensures
        other_view(other_view(v)) == v,
        other_view(v) != v,
{
}

/// The process groups that are running, so that every one of them can be
/// killed on exit.
#[derive(Debug)]
pub struct PidRegistry {
    inner: HashSet<u32>,
}

impl View for PidRegistry {
    type V = Set<u32>;

    closed spec fn view(&self) -> Set<u32> {
        self.inner@
    }
}

impl Default for PidRegistry {
    fn default() -> (r: Self)
        ensures
            r@ == Set::<u32>::empty(),
    {
        PidRegistry::new()
    }
}

impl PidRegistry {
    /// An empty registry.
    pub fn new() -> (r: Self)
        ensures
            r@ == Set::<u32>::empty(),
    {
        PidRegistry { inner: HashSet::new() }
    }

    /// Records a process group.
    pub fn insert(&mut self, pgid: u32)
        ensures
            final(self)@ == old(self)@.insert(pgid),
    {
        self.inner.insert(pgid);
    }

    /// Forgets a process group.
    pub fn remove(&mut self, pgid: u32)
        ensures
            final(self)@ == old(self)@.remove(pgid),
    {
        self.inner.remove(&pgid);
    }

    /// Whether a process group is recorded.
    pub fn contains(&self, pgid: u32) -> (b: bool)
        ensures
            b == self@.contains(pgid),
    {
        self.inner.contains(&pgid)
    }

    /// How many process groups are recorded.
    pub fn len(&self) -> (n: usize)
        ensures
            n == self@.len(),
    {
        self.inner.len()
    }

    /// The recorded process groups, in no particular order.
    pub fn pids(&self) -> (v: Vec<u32>)
        ensures
            v@.to_set() == self@,
    {
        let mut v: Vec<u32> = Vec::new();
        let ghost all = self.inner@;
        for p in it: self.inner.iter()
            invariant
                all == self.inner@,
                it.seq().unref().to_set() == all,
                v@ == it.seq().unref().take(it.index() as int),
                it.index() == it.seq().len() ==> v@.to_set() == all,
        {
            v.push(*p);
            assert(v@ =~= it.seq().unref().take(it.index() + 1));
            assert(it.index() + 1 == it.seq().len() ==> it.seq().unref().take(it.index() + 1) =~= it.seq().unref());
        }
        proof {
            if self.inner@.len() == 0 {
                assert(v@.to_set() =~= all);
            }
        }
        v
    }
}

/// Two to the power `n`.
pub open spec fn pow_two(n: nat) -> nat
    decreases n,
{
    if n == 0 {
        1
    } else {
        2 * pow_two((n - 1) as nat)
    }
}

/// Longest wait before a restart, in seconds.
pub const MAX_RESTART_BACKOFF_SECS: u64 = 60;

/// Seconds to wait before restarting after `failures` failures in a row:
/// `2^failures`, at most 60.
pub open spec fn backoff_secs(failures: nat) -> nat {
    if pow_two(failures) < MAX_RESTART_BACKOFF_SECS {
        pow_two(failures)
    } else {
        MAX_RESTART_BACKOFF_SECS as nat
    }
}

proof fn lemma_pow_two_grows(a: nat, b: nat)
    requires
        a <= b,
    ensures
        pow_two(a) <= pow_two(b),
    decreases b,
{
    if a < b {
        lemma_pow_two_grows(a, (b - 1) as nat);
    }
}

/// The wait doubles with each failure until it reaches 60 seconds, and stays there.
pub proof fn law_backoff_doubles(failures: nat)
    ensures
        backoff_secs(0) == 1,
        backoff_secs(failures + 1) == if 2 * backoff_secs(failures) < 60 { 2 * backoff_secs(failures) } else { 60 },
        1 <= backoff_secs(failures) <= 60,
{
    lemma_pow_two_grows(0, failures);
}

/// A duration of whole seconds, as `Duration::from_secs` makes it.
pub uninterp spec fn duration_of_secs(secs: u64) -> Duration;

/// Calls `Duration::from_secs`. Its result is named `duration_of_secs` of the
/// argument; what a `Duration` holds inside is not stated.
#[verifier::external_body]
fn duration_from_secs(secs: u64) -> (d: Duration)
    ensures
        d == duration_of_secs(secs),
{
    Duration::from_secs(secs)
}

/// Declares `std::time::Instant`, which is carried through without being read.
#[verifier::external_type_specification]
#[verifier::external_body]
pub struct ExInstant(Instant);

/// Calls `Instant::now`. The clock's reading is not stated.
#[verifier::external_body]
fn instant_now() -> (t: Instant) {
    Instant::now()
}

/// Restart bookkeeping of one process.
#[derive(Debug, Clone)]
pub struct RestartState {
    pub consecutive_failures: u32,
    pub last_restart: Option<Instant>,
}

impl Default for RestartState {
    fn default() -> (s: Self)
        ensures
            s.consecutive_failures == 0,
            s.last_restart is None,
    {
        RestartState { consecutive_failures: 0, last_restart: None }
    }
}

impl RestartState {
    /// Seconds to wait before the next restart: `2^failures`, at most 60.
    pub fn backoff_secs(&self) -> (s: u64)
        ensures
            s == backoff_secs(self.consecutive_failures as nat),
    {
        let n = self.consecutive_failures;
        if n >= 6 {
            proof {
                lemma_pow_two_grows(6, n as nat);
                reveal_with_fuel(pow_two, 7);
                assert(pow_two(6) == 64);
            }
            return MAX_RESTART_BACKOFF_SECS;
        }
        let mut m: u64 = 1;
        let mut k: u32 = 0;
        while k < n
            invariant
                k <= n < 6,
                m == pow_two(k as nat),
                m <= 32,
            decreases n - k,
        {
            proof {
                lemma_pow_two_grows((k + 1) as nat, 5);
                reveal_with_fuel(pow_two, 6);
                assert(pow_two(5) == 32);
            }
            m = m * 2;
            k += 1;
        }
        proof {
            lemma_pow_two_grows(n as nat, 5);
            reveal_with_fuel(pow_two, 6);
                assert(pow_two(5) == 32);
        }
        m
    }

    /// The wait before the next restart: `2^failures` seconds, at most 60.
    pub fn backoff_delay(&self) -> (d: Duration)
        ensures
            d == duration_of_secs(backoff_secs(self.consecutive_failures as nat) as u64),
    {
        duration_from_secs(self.backoff_secs())
    }

    /// After a successful start: no failures, restarted now.
    pub fn reset(&mut self)
        ensures
            final(self).consecutive_failures == 0,
            final(self).last_restart is Some,
    {
        self.consecutive_failures = 0;
        self.last_restart = Some(instant_now());
    }

    /// After a failure: one more failure in a row (at most `u32::MAX`),
    /// restarted now.
    pub fn record_failure(&mut self)
        ensures
            final(self).consecutive_failures == if old(self).consecutive_failures < u32::MAX {
                old(self).consecutive_failures + 1
            } else {
                u32::MAX as int
            },
            final(self).last_restart is Some,
    {
        self.consecutive_failures = self.consecutive_failures.saturating_add(1);
        self.last_restart = Some(instant_now());
    }
}


/// Names a managed process.
#[derive(Debug, Clone, PartialEq, Eq, Hash)]
pub struct ProcessId(pub String);

impl View for ProcessId {
    type V = Seq<char>;

    open spec fn view(&self) -> Seq<char> {
        self.0@
    }
}

impl ProcessId {
    /// The name.
    pub fn as_str(&self) -> (s: &str)
        ensures
            s@ == self@,
    {
        self.0.as_str()
    }
}

/// How a process is run and supervised.
#[derive(Debug, Clone)]
pub struct ProcessConfig {
    pub id: ProcessId,
    pub command: String,
    pub args: Vec<String>,
    pub working_dir: String,
    pub env: Vec<(String, String)>,
    pub restart_policy: RestartPolicy,
    pub supervised: bool,
    pub supervisor_program: Option<String>,
}

/// Why a process could not be run.
#[derive(Debug, Clone)]
pub enum LaraMuxError {
    ProcessNotFound(String),
    SpawnFailed { name: String, reason: String },
}

/// The text of an error.
pub open spec fn error_text(e: LaraMuxError) -> Seq<char> {
    match e {
        LaraMuxError::ProcessNotFound(n) => "Process not found: "@ + n@,
        LaraMuxError::SpawnFailed { name, reason } => "Failed to spawn "@ + name@ + ": "@ + reason@,
    }
}

impl LaraMuxError {
    /// The error as text.
    pub fn message(&self) -> (s: String)
        ensures
            s@ == error_text(*self),
    {
        match self {
            LaraMuxError::ProcessNotFound(n) => {
                let s = String::from_str("Process not found: ").concat(n.as_str());
                proof {
                    reveal_strlit("Process not found: ");
                }
                s
            },
            LaraMuxError::SpawnFailed { name, reason } => {
                let s = String::from_str("Failed to spawn ").concat(name.as_str()).concat(": ").concat(reason.as_str());
                proof {
                    reveal_strlit("Failed to spawn ");
                    reveal_strlit(": ");
                }
                s
            },
        }
    }
}

/// How starting a command failed.
#[derive(Debug, Clone, Copy, PartialEq, Eq, Structural)]
pub enum SpawnErrorKind {
    NotFound,
    PermissionDenied,
    Other,
}

/// The reason given when a command could not be started: a hint for a
/// missing command or a denied permission, else the system's own text.
pub open spec fn spawn_failure_reason(kind: SpawnErrorKind, command: Seq<char>, detail: Seq<char>) -> Seq<char> {
    match kind {
        SpawnErrorKind::NotFound => "Command '"@ + command + "' not found. Make sure it is installed and in your PATH."@,
        SpawnErrorKind::PermissionDenied => "Permission denied when trying to execute '"@ + command
            + "'. Check file permissions."@,
        SpawnErrorKind::Other => detail,
    }
}

/// The error for a process whose command could not be started.
pub fn spawn_failure(id: &ProcessId, kind: SpawnErrorKind, command: &str, detail: String) -> (e: LaraMuxError)
    ensures
        e matches LaraMuxError::SpawnFailed { name, reason } && name@ == id@ && reason@ == spawn_failure_reason(kind, command@, detail@),
{
    let reason = match kind {
        SpawnErrorKind::NotFound => {
            let r = String::from_str("Command '").concat(command).concat("' not found. Make sure it is installed and in your PATH.");
            proof {
                reveal_strlit("Command '");
                reveal_strlit("' not found. Make sure it is installed and in your PATH.");
            }
            r
        },
        SpawnErrorKind::PermissionDenied => {
            let r = String::from_str("Permission denied when trying to execute '").concat(command).concat("'. Check file permissions.");
            proof {
                reveal_strlit("Permission denied when trying to execute '");
                reveal_strlit("'. Check file permissions.");
            }
            r
        },
        SpawnErrorKind::Other => detail,
    };
    LaraMuxError::SpawnFailed { name: id.0.clone(), reason }
}

/// What to run for a process.
#[derive(Debug, Clone)]
pub struct SpawnPlan {
    pub command: String,
    pub args: Vec<String>,
    pub working_dir: String,
    pub env: Vec<(String, String)>,
}

/// Variables set on every process so that it writes colored output without a terminal.
pub open spec fn forced_color_env() -> Seq<(Seq<char>, Seq<char>)> {
    seq![("FORCE_COLOR"@, "1"@), ("CLICOLOR_FORCE"@, "1"@), ("COLORTERM"@, "truecolor"@)]
}

/// Position of the first configuration of a process, if any.
pub open spec fn config_position(cs: Seq<ProcessConfig>, id: Seq<char>) -> Option<int> {
    if exists|i: int| 0 <= i < cs.len() && (#[trigger] cs[i]).id@ == id {
        Some(choose|i: int| 0 <= i < cs.len() && (#[trigger] cs[i]).id@ == id && forall|j: int| 0 <= j < i ==> (#[trigger] cs[j]).id@ != id)
    } else {
        None
    }
}

/// Position of the first restart state of a process, if any.
pub open spec fn state_position(ss: Seq<(ProcessId, RestartState)>, id: Seq<char>) -> Option<int> {
    if exists|i: int| 0 <= i < ss.len() && (#[trigger] ss[i]).0@ == id {
        Some(choose|i: int| 0 <= i < ss.len() && (#[trigger] ss[i]).0@ == id && forall|j: int| 0 <= j < i ==> (#[trigger] ss[j]).0@ != id)
    } else {
        None
    }
}

/// Whether a process with this configuration is restarted after exiting with
/// `exit_code` (none when a signal ended it): never when a supervisor runs
/// it; otherwise as its policy says, `OnFailure` restarting unless the code is 0.
pub open spec fn restart_decision(c: ProcessConfig, exit_code: Option<i32>) -> bool {
    if c.supervised {
        false
    } else {
        match c.restart_policy {
            RestartPolicy::Never => false,
            RestartPolicy::OnFailure => match exit_code {
                Some(code) => code != 0,
                None => true,
            },
            RestartPolicy::Always => true,
        }
    }
}

/// The configurations after registering `c`: it replaces the one of its
/// process, or is added at the end.
pub open spec fn registered(cs: Seq<ProcessConfig>, c: ProcessConfig) -> Seq<ProcessConfig> {
    match config_position(cs, c.id@) {
        Some(i) => cs.update(i, c),
        None => cs.push(c),
    }
}

/// The debug text of an optional process id: `Some(n)` or `None`.
pub open spec fn pid_debug(pid: Option<u32>) -> Seq<char> {
    match pid {
        Some(n) => "Some("@ + decimal(n as nat) + ")"@,
        None => "None"@,
    }
}

/// The first line shown for a started process.
pub open spec fn started_text(c: ProcessConfig, id: Seq<char>, pid: Option<u32>) -> Seq<char> {
    if c.supervised {
        "Tailing supervisor logs for "@ + (match c.supervisor_program {
            Some(p) => p@,
            None => "unknown"@,
        }) + " (PID: "@ + pid_debug(pid) + ")"@
    } else {
        "Started "@ + id + " (PID: "@ + pid_debug(pid) + ")"@
    }
}

/// The decisions of process management: the registered configurations, each
/// process once, and the restart state of each process that started or failed.
pub struct ProcessManager {
    configs: Vec<ProcessConfig>,
    restart_states: Vec<(ProcessId, RestartState)>,
}

fn find_config(cs: &Vec<ProcessConfig>, id: &ProcessId) -> (r: Option<usize>)
    ensures
        match r {
            Some(i) => config_position(cs@, id@) == Some(i as int) && i < cs@.len(),
            None => config_position(cs@, id@) is None,
        },
{
    let mut i: usize = 0;
    while i < cs.len()
        invariant
            0 <= i <= cs.len(),
            forall|j: int| 0 <= j < i ==> (#[trigger] cs@[j]).id@ != id@,
        decreases cs.len() - i,
    {
        if str_eq(cs[i].id.0.as_str(), id.0.as_str()) {
            proof {
                let c = choose|c: int| 0 <= c < cs@.len() && (#[trigger] cs@[c]).id@ == id@ && forall|j: int| 0 <= j < c ==> (#[trigger] cs@[j]).id@ != id@;
                assert(0 <= i < cs@.len() && cs@[i as int].id@ == id@ && forall|j: int| 0 <= j < i ==> (#[trigger] cs@[j]).id@ != id@);
                if c < i {
                    assert(cs@[c].id@ != id@);
                } else if c > i {
                    assert(cs@[i as int].id@ != id@);
                }
            }
            return Some(i);
        }
        i += 1;
    }
    None
}

fn find_state(ss: &Vec<(ProcessId, RestartState)>, id: &ProcessId) -> (r: Option<usize>)
    ensures
        match r {
            Some(i) => state_position(ss@, id@) == Some(i as int) && i < ss@.len(),
            None => state_position(ss@, id@) is None,
        },
{
    let mut i: usize = 0;
    while i < ss.len()
        invariant
            0 <= i <= ss.len(),
            forall|j: int| 0 <= j < i ==> (#[trigger] ss@[j]).0@ != id@,
        decreases ss.len() - i,
    {
        if str_eq(ss[i].0.0.as_str(), id.0.as_str()) {
            proof {
                let c = choose|c: int| 0 <= c < ss@.len() && (#[trigger] ss@[c]).0@ == id@ && forall|j: int| 0 <= j < c ==> (#[trigger] ss@[j]).0@ != id@;
                assert(0 <= i < ss@.len() && ss@[i as int].0@ == id@ && forall|j: int| 0 <= j < i ==> (#[trigger] ss@[j]).0@ != id@);
                if c < i {
                    assert(ss@[c].0@ != id@);
                } else if c > i {
                    assert(ss@[i as int].0@ != id@);
                }
            }
            return Some(i);
        }
        i += 1;
    }
    None
}

fn format_pid(pid: Option<u32>) -> (s: String)
    ensures
        s@ == pid_debug(pid),
{
    match pid {
        Some(n) => {
            let s = String::from_str("Some(").concat(format_usize(n as usize).as_str()).concat(")");
            proof {
                reveal_strlit("Some(");
                reveal_strlit(")");
            }
            s
        },
        None => {
            proof {
                reveal_strlit("None");
            }
            String::from_str("None")
        },
    }
}

impl ProcessManager {
    /// The registered configurations, in registration order.
    pub closed spec fn configs(&self) -> Seq<ProcessConfig> {
        self.configs@
    }

    /// The restart states, in the order the processes first got one.
    pub closed spec fn restart_states(&self) -> Seq<(ProcessId, RestartState)> {
        self.restart_states@
    }

    /// No process is configured, and none has a restart state.
    pub fn new() -> (m: Self)
        ensures
            m.configs().len() == 0,
            m.restart_states().len() == 0,
    {
        ProcessManager { configs: Vec::new(), restart_states: Vec::new() }
    }

    /// Registers how a process runs, replacing an earlier configuration of it.
    pub fn register(&mut self, config: ProcessConfig)
        ensures
            final(self).configs() == registered(old(self).configs(), config),
            final(self).restart_states() == old(self).restart_states(),
    {
        match find_config(&self.configs, &config.id) {
            Some(i) => {
                self.configs.set(i, config);
            },
            None => {
                self.configs.push(config);
            },
        }
    }

    /// The registered process ids, in registration order.
    pub fn process_ids(&self) -> (ids: Vec<ProcessId>)
        ensures
            ids@.len() == self.configs().len(),
            forall|i: int| 0 <= i < ids@.len() ==> (#[trigger] ids@[i])@ == self.configs()[i].id@,
    {
        let mut ids: Vec<ProcessId> = Vec::new();
        let mut i: usize = 0;
        while i < self.configs.len()
            invariant
                0 <= i <= self.configs.len(),
                ids@.len() == i,
                forall|j: int| 0 <= j < i ==> (#[trigger] ids@[j])@ == self.configs@[j].id@,
            decreases self.configs.len() - i,
        {
            ids.push(ProcessId(self.configs[i].id.0.clone()));
            i += 1;
        }
        ids
    }

    /// What to run for a process, or `ProcessNotFound` when it is not registered.
    /// Forced-color variables come first, then the configured ones.
    pub fn spawn_plan(&self, id: &ProcessId) -> (r: Result<SpawnPlan, LaraMuxError>)
        ensures
            match r {
                Ok(plan) => {
                    let c = self.configs()[config_position(self.configs(), id@).unwrap()];
                    &&& config_position(self.configs(), id@) is Some
                    &&& plan.command@ == c.command@
                    &&& texts(plan.args@) == texts(c.args@)
                    &&& plan.working_dir@ == c.working_dir@
                    &&& pair_texts(plan.env@) == forced_color_env() + pair_texts(c.env@)
                },
                Err(e) => config_position(self.configs(), id@) is None && (e matches LaraMuxError::ProcessNotFound(n) && n@ == id@),
            },
    {
        match find_config(&self.configs, id) {
            None => Err(LaraMuxError::ProcessNotFound(id.0.clone())),
            Some(i) => {
                let c = &self.configs[i];
                let mut env: Vec<(String, String)> = Vec::new();
                env.push((String::from_str("FORCE_COLOR"), String::from_str("1")));
                env.push((String::from_str("CLICOLOR_FORCE"), String::from_str("1")));
                env.push((String::from_str("COLORTERM"), String::from_str("truecolor")));
                proof {
                    reveal_strlit("FORCE_COLOR");
                    reveal_strlit("CLICOLOR_FORCE");
                    reveal_strlit("COLORTERM");
                    reveal_strlit("1");
                    reveal_strlit("truecolor");
                    assert(pair_texts(env@) =~= forced_color_env());
                }
                let mut k: usize = 0;
                while k < c.env.len()
                    invariant
                        0 <= k <= c.env.len(),
                        pair_texts(env@) == forced_color_env() + pair_texts(c.env@).take(k as int),
                    decreases c.env.len() - k,
                {
                    let ghost before = env@;
                    env.push((c.env[k].0.clone(), c.env[k].1.clone()));
                    assert(pair_texts(env@) =~= pair_texts(before).push((c.env@[k as int].0@, c.env@[k as int].1@)));
                    assert(pair_texts(c.env@).take(k + 1) =~= pair_texts(c.env@).take(k as int).push((c.env@[k as int].0@, c.env@[k as int].1@)));
                    k += 1;
                }
                assert(pair_texts(c.env@).take(c.env.len() as int) =~= pair_texts(c.env@));
                let args = clone_strings(&c.args);
                Ok(SpawnPlan { command: c.command.clone(), args, working_dir: c.working_dir.clone(), env })
            },
        }
    }

    /// The first line shown for a started process, or `None` when it is not registered.
    pub fn started_message(&self, id: &ProcessId, pid: Option<u32>) -> (r: Option<String>)
        ensures
            match r {
                Some(s) => config_position(self.configs(), id@) is Some
                    && s@ == started_text(self.configs()[config_position(self.configs(), id@).unwrap()], id@, pid),
                None => config_position(self.configs(), id@) is None,
            },
    {
        let i = find_config(&self.configs, id)?;
        let c = &self.configs[i];
        let p = format_pid(pid);
        let s = if c.supervised {
            let program = match &c.supervisor_program {
                Some(prog) => prog.clone(),
                None => String::from_str("unknown"),
            };
            let s = String::from_str("Tailing supervisor logs for ").concat(program.as_str()).concat(" (PID: ").concat(p.as_str()).concat(")");
            proof {
                reveal_strlit("unknown");
                reveal_strlit("Tailing supervisor logs for ");
                reveal_strlit(" (PID: ");
                reveal_strlit(")");
            }
            s
        } else {
            let s = String::from_str("Started ").concat(id.0.as_str()).concat(" (PID: ").concat(p.as_str()).concat(")");
            proof {
                reveal_strlit("Started ");
                reveal_strlit(" (PID: ");
                reveal_strlit(")");
            }
            s
        };
        Some(s)
    }

    /// Whether a process is restarted after exiting with `exit_code`:
    /// never when it is not registered, else as `restart_decision` says.
    pub fn should_restart(&self, id: &ProcessId, exit_code: Option<i32>) -> (b: bool)
        ensures
            b == match config_position(self.configs(), id@) {
                Some(i) => restart_decision(self.configs()[i], exit_code),
                None => false,
            },
    {
        let i = match find_config(&self.configs, id) {
            Some(i) => i,
            None => return false,
        };
        let config = &self.configs[i];
        if config.supervised {
            return false;
        }
        match config.restart_policy {
            RestartPolicy::Never => false,
            RestartPolicy::OnFailure => match exit_code {
                Some(c) => c != 0,
                None => true,
            },
            RestartPolicy::Always => true,
        }
    }

    /// Whether a supervisor runs the process (false when it is not registered).
    pub fn is_supervised(&self, id: &ProcessId) -> (b: bool)
        ensures
            b == match config_position(self.configs(), id@) {
                Some(i) => self.configs()[i].supervised,
                None => false,
            },
    {
        match find_config(&self.configs, id) {
            Some(i) => self.configs[i].supervised,
            None => false,
        }
    }

    /// The restart policy of a process (`Never` when it is not registered).
    pub fn get_restart_policy(&self, id: &ProcessId) -> (p: RestartPolicy)
        ensures
            p == match config_position(self.configs(), id@) {
                Some(i) => self.configs()[i].restart_policy,
                None => RestartPolicy::Never,
            },
    {
        match find_config(&self.configs, id) {
            Some(i) => self.configs[i].restart_policy,
            None => RestartPolicy::Never,
        }
    }

    /// The restart state of a process, if it has one.
    pub fn get_restart_state(&self, id: &ProcessId) -> (r: Option<&RestartState>)
        ensures
            match state_position(self.restart_states(), id@) {
                Some(i) => r == Some(&self.restart_states()[i].1),
                None => r is None,
            },
    {
        match find_state(&self.restart_states, id) {
            Some(i) => Some(&self.restart_states[i].1),
            None => None,
        }
    }

    /// Counts a failure of a process, giving it a restart state first when it has none.
    pub fn record_failure(&mut self, id: &ProcessId)
        ensures
            final(self).configs() == old(self).configs(),
            match state_position(old(self).restart_states(), id@) {
                Some(i) => {
                    let before = old(self).restart_states()[i].1.consecutive_failures;
                    &&& final(self).restart_states().len() == old(self).restart_states().len()
                    &&& forall|j: int| 0 <= j < old(self).restart_states().len() && j != i ==> #[trigger] final(self).restart_states()[j] == old(self).restart_states()[j]
                    &&& final(self).restart_states()[i].0 == old(self).restart_states()[i].0
                    &&& final(self).restart_states()[i].1.consecutive_failures == if before < u32::MAX { before + 1 } else { before as int }
                    &&& final(self).restart_states()[i].1.last_restart is Some
                },
                None => {
                    &&& final(self).restart_states().len() == old(self).restart_states().len() + 1
                    &&& final(self).restart_states().drop_last() == old(self).restart_states()
                    &&& final(self).restart_states().last().0@ == id@
                    &&& final(self).restart_states().last().1.consecutive_failures == 1
                    &&& final(self).restart_states().last().1.last_restart is Some
                },
            },
    {
        match find_state(&self.restart_states, id) {
            Some(i) => {
                let (pid, mut st) = self.restart_states.remove(i);
                st.record_failure();
                self.restart_states.insert(i, (pid, st));
            },
            None => {
                let mut st = RestartState::default();
                st.record_failure();
                self.restart_states.push((ProcessId(id.0.clone()), st));
            },
        }
    }

    /// Marks a successful start: the process's failures are forgotten.
    pub fn record_start(&mut self, id: &ProcessId)
        ensures
            final(self).configs() == old(self).configs(),
            match state_position(old(self).restart_states(), id@) {
                Some(i) => {
                    &&& final(self).restart_states().len() == old(self).restart_states().len()
                    &&& forall|j: int| 0 <= j < old(self).restart_states().len() && j != i ==> #[trigger] final(self).restart_states()[j] == old(self).restart_states()[j]
                    &&& final(self).restart_states()[i].0 == old(self).restart_states()[i].0
                    &&& final(self).restart_states()[i].1.consecutive_failures == 0
                    &&& final(self).restart_states()[i].1.last_restart is Some
                },
                None => {
                    &&& final(self).restart_states().len() == old(self).restart_states().len() + 1
                    &&& final(self).restart_states().drop_last() == old(self).restart_states()
                    &&& final(self).restart_states().last().0@ == id@
                    &&& final(self).restart_states().last().1.consecutive_failures == 0
                    &&& final(self).restart_states().last().1.last_restart is Some
                },
            },
    {
        match find_state(&self.restart_states, id) {
            Some(i) => {
                let (pid, mut st) = self.restart_states.remove(i);
                st.reset();
                self.restart_states.insert(i, (pid, st));
            },
            None => {
                let mut st = RestartState::default();
                st.reset();
                self.restart_states.push((ProcessId(id.0.clone()), st));
            },
        }
    }

    /// The wait before restarting a process: its back-off, or one second
    /// when it has no restart state.
    pub fn get_backoff_delay(&self, id: &ProcessId) -> (d: Duration)
        ensures
            d == match state_position(self.restart_states(), id@) {
                Some(i) => duration_of_secs(backoff_secs(self.restart_states()[i].1.consecutive_failures as nat) as u64),
                None => duration_of_secs(1),
            },
    {
        match find_state(&self.restart_states, id) {
            Some(i) => self.restart_states[i].1.backoff_delay(),
            None => duration_from_secs(1),
        }
    }
}


proof fn lemma_minimal_match(cs: Seq<ProcessConfig>, id: Seq<char>, k: int)
    requires
        0 <= k < cs.len(),
        cs[k].id@ == id,
    ensures
        exists|i: int| 0 <= i < cs.len() && (#[trigger] cs[i]).id@ == id && forall|j: int| 0 <= j < i ==> (#[trigger] cs[j]).id@ != id,
    decreases k,
{
    if exists|j: int| 0 <= j < k && (#[trigger] cs[j]).id@ == id {
        let j = choose|j: int| 0 <= j < k && (#[trigger] cs[j]).id@ == id;
        lemma_minimal_match(cs, id, j);
    } else {
        assert(forall|j: int| 0 <= j < k ==> (#[trigger] cs[j]).id@ != id);
    }
}

/// What `config_position` names: the first configuration of the process, or none.
proof fn lemma_position_props(cs: Seq<ProcessConfig>, id: Seq<char>)
    ensures
        match config_position(cs, id) {
            Some(i) => 0 <= i < cs.len() && cs[i].id@ == id && forall|j: int| 0 <= j < i ==> (#[trigger] cs[j]).id@ != id,
            None => forall|j: int| 0 <= j < cs.len() ==> (#[trigger] cs[j]).id@ != id,
        },
{
    if exists|k: int| 0 <= k < cs.len() && (#[trigger] cs[k]).id@ == id {
        let k = choose|k: int| 0 <= k < cs.len() && (#[trigger] cs[k]).id@ == id;
        lemma_minimal_match(cs, id, k);
    }
}

proof fn lemma_first_position(cs: Seq<ProcessConfig>, id: Seq<char>, i: int)
    requires
        0 <= i < cs.len(),
        cs[i].id@ == id,
        forall|j: int| 0 <= j < i ==> (#[trigger] cs[j]).id@ != id,
    ensures
        config_position(cs, id) == Some(i),
{
    let p = choose|p: int| 0 <= p < cs.len() && (#[trigger] cs[p]).id@ == id && forall|j: int| 0 <= j < p ==> (#[trigger] cs[j]).id@ != id;
    if p < i {
        assert(cs[p].id@ != id);
    } else if p > i {
        assert(cs[i].id@ != id);
    }
}

proof fn lemma_registered_finds_it(cs: Seq<ProcessConfig>, c: ProcessConfig)
    ensures
        config_position(registered(cs, c), c.id@) matches Some(i) && registered(cs, c)[i] == c,
{
    let r = registered(cs, c);
    let id = c.id@;
    lemma_position_props(cs, id);
    match config_position(cs, id) {
        Some(i) => {
            assert forall|j: int| 0 <= j < i implies (#[trigger] r[j]).id@ != id by {
                assert(r[j] == cs[j]);
            }
            lemma_first_position(r, id, i);
        },
        None => {
            let n = cs.len() as int;
            assert forall|j: int| 0 <= j < n implies (#[trigger] r[j]).id@ != id by {
                assert(r[j] == cs[j]);
            }
            lemma_first_position(r, id, n);
        },
    }
}

proof fn lemma_same_matches(cs: Seq<ProcessConfig>, r: Seq<ProcessConfig>, other: Seq<char>)
    requires
        cs.len() <= r.len(),
        forall|j: int| 0 <= j < cs.len() ==> #[trigger] r[j] == cs[j] || (r[j].id@ != other && cs[j].id@ != other),
        forall|j: int| cs.len() <= j < r.len() ==> (#[trigger] r[j]).id@ != other,
    ensures
        config_position(r, other) == config_position(cs, other),
        config_position(cs, other) matches Some(a) ==> r[a] == cs[a],
{
    lemma_position_props(cs, other);
    lemma_position_props(r, other);
    match config_position(cs, other) {
        Some(a) => {
            assert(r[a] == cs[a]);
            assert forall|j: int| 0 <= j < a implies (#[trigger] r[j]).id@ != other by {
                assert(cs[j].id@ != other);
            }
            lemma_first_position(r, other, a);
        },
        None => {
            match config_position(r, other) {
                Some(b) => {
                    if b < cs.len() {
                        assert(cs[b].id@ != other);
                    }
                },
                None => {},
            }
        },
    }
}

proof fn lemma_registered_keeps_others(cs: Seq<ProcessConfig>, c: ProcessConfig, other: Seq<char>)
    requires
        other != c.id@,
    ensures
        config_position(registered(cs, c), other) == config_position(cs, other),
        config_position(cs, other) matches Some(a) ==> registered(cs, c)[a] == cs[a],
{
    let r = registered(cs, c);
    lemma_position_props(cs, c.id@);
    match config_position(cs, c.id@) {
        Some(i) => {
            assert forall|j: int| 0 <= j < cs.len() implies #[trigger] r[j] == cs[j] || (r[j].id@ != other && cs[j].id@ != other) by {
                if j == i {
                    assert(r[j] == c);
                }
            }
        },
        None => {
            assert forall|j: int| 0 <= j < cs.len() implies #[trigger] r[j] == cs[j] || (r[j].id@ != other && cs[j].id@ != other) by {
            }
            assert forall|j: int| cs.len() <= j < r.len() implies (#[trigger] r[j]).id@ != other by {
                assert(r[j] == c);
            }
        },
    }
    lemma_same_matches(cs, r, other);
}

/// After a configuration is registered, looking its process up finds exactly
/// that configuration, so restart decisions follow it; every other process
/// keeps the configuration it had.
pub proof fn law_register_then_lookup(cs: Seq<ProcessConfig>, c: ProcessConfig, other: Seq<char>)
    ensures
        config_position(registered(cs, c), c.id@) matches Some(i) && registered(cs, c)[i] == c,
        other != c.id@ ==> config_position(registered(cs, c), other) == config_position(cs, other),
        other != c.id@ && config_position(cs, other) is Some ==> registered(cs, c)[config_position(cs, other).unwrap()]
            == cs[config_position(cs, other).unwrap()],
{
    lemma_registered_finds_it(cs, c);
    if other != c.id@ {
        lemma_registered_keeps_others(cs, c, other);
    }
}


/// The restart policy decides alone for a process that no supervisor runs:
/// `Always` restarts it whatever the exit code (and when there is none),
/// `Never` never does, and `OnFailure` does exactly when it did not exit with
/// code 0. A process that a supervisor runs is never restarted.
pub proof fn law_restart_policy(c: ProcessConfig, exit_code: Option<i32>)
    ensures
        c.supervised ==> !restart_decision(c, exit_code),
        !c.supervised && c.restart_policy == RestartPolicy::Always ==> restart_decision(c, exit_code),
        c.restart_policy == RestartPolicy::Never ==> !restart_decision(c, exit_code),
        !c.supervised && c.restart_policy == RestartPolicy::OnFailure ==> (restart_decision(c, exit_code)
            <==> exit_code != Some(0i32)),
{
}

/// Once a configuration is registered, whether its process is restarted after
/// an exit follows that configuration's policy: an unsupervised process under
/// `Always` is restarted whatever the exit code, one under `Never` is not, and
/// one under `OnFailure` is exactly when the code is not 0.
pub proof fn law_registered_restart_policy(cs: Seq<ProcessConfig>, c: ProcessConfig, exit_code: Option<i32>)
    ensures
        config_position(registered(cs, c), c.id@) matches Some(i) && (restart_decision(registered(cs, c)[i], exit_code)
            <==> (!c.supervised && match c.restart_policy {
                RestartPolicy::Always => true,
                RestartPolicy::Never => false,
                RestartPolicy::OnFailure => exit_code != Some(0i32),
            })),
{
    law_register_then_lookup(cs, c, c.id@);
    law_restart_policy(c, exit_code);
}

/// A `/proc/<pid>/stat` line can be cut two bytes after its last `)`: when
/// there is one, a one-byte character follows it.
pub open spec fn stat_cuttable(stat: Seq<char>) -> bool {
    last_position(stat, ')') matches Some(p) ==> p + 1 < stat.len() && (stat[p + 1] as u32) < 0x80
}

/// The parent process id in a `/proc/<pid>/stat` line (`pid (comm) state ppid ...`):
/// the second word after the last `)` and the byte following it.
pub open spec fn stat_parent(stat: Seq<char>) -> Option<nat> {
    match last_position(stat, ')') {
        Some(p) => {
            let fields = words(stat.skip(p + 2));
            if fields.len() > 1 {
                parsed_u32(fields[1])
            } else {
                None
            }
        },
        None => None,
    }
}

/// Whether a stat line can be read by `stat_parent_pid`.
pub fn stat_cuttable_exec(stat: &str) -> (b: bool)
    ensures
        b == stat_cuttable(stat@),
{
    let cs = chars_of(stat);
    match rfind_char(&cs, ')') {
        Some(p) => p < cs.len() - 1 && (cs[p + 1] as u32) < 0x80,
        None => true,
    }
}

/// The parent process id in a `/proc/<pid>/stat` line.
pub fn stat_parent_pid(stat: &str) -> (r: Option<u32>)
    requires
        stat_cuttable(stat@),
    ensures
        match r {
            Some(n) => stat_parent(stat@) == Some(n as nat),
            None => stat_parent(stat@) is None,
        },
{
    let cs = chars_of(stat);
    let p = match rfind_char(&cs, ')') {
        Some(p) => p,
        None => return None,
    };
    let rest = string_from_range(&cs, p + 2, cs.len());
    assert(rest@ =~= stat@.skip(p + 2));
    let fields = split_whitespace(rest.as_str());
    assert(texts(fields@) == words(rest@));
    if fields.len() > 1 {
        assert(fields@[1]@ == words(rest@)[1]);
        parse_u32(fields[1].as_str())
    } else {
        None
    }
}

} // verus!

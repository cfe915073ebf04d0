//! Command execution against a debugger: execution states, the errors of
//! execution, the rendering of a command from a catalog entry, and the mock
//! executor that scripts debugger output.
use vstd::prelude::*;

use crate::catalog::CatalogEntry;
use crate::text::{
    chars_of, decimal, eq_ignore_case, eq_ignore_case_chars, lower, nonblank_trim, opt_str_view,
    push_decimal_str, push_str, trim, trimmed_nonblank,
};

verus! {

pub const EXECUTION_STATUS_NO_CHANGE: u32 = 0;

pub const EXECUTION_STATUS_GO: u32 = 1;

pub const EXECUTION_STATUS_GO_HANDLED: u32 = 2;

pub const EXECUTION_STATUS_GO_NOT_HANDLED: u32 = 3;

pub const EXECUTION_STATUS_STEP_OVER: u32 = 4;

pub const EXECUTION_STATUS_STEP_INTO: u32 = 5;

pub const EXECUTION_STATUS_BREAK: u32 = 6;

pub const EXECUTION_STATUS_NO_DEBUGGEE: u32 = 7;

pub const EXECUTION_STATUS_STEP_BRANCH: u32 = 8;

pub const EXECUTION_STATUS_IGNORE_EVENT: u32 = 9;

pub const EXECUTION_STATUS_RESTART_REQUESTED: u32 = 10;

pub const EXECUTION_STATUS_REVERSE_GO: u32 = 11;

pub const EXECUTION_STATUS_REVERSE_STEP_BRANCH: u32 = 12;

pub const EXECUTION_STATUS_REVERSE_STEP_OVER: u32 = 13;

pub const EXECUTION_STATUS_REVERSE_STEP_INTO: u32 = 14;

pub const EXECUTION_STATUS_OUT_OF_SYNC: u32 = 15;

pub const EXECUTION_STATUS_WAIT_INPUT: u32 = 16;

pub const EXECUTION_STATUS_TIMEOUT: u32 = 17;

/// Why a command could not be built or executed.
#[derive(Debug, Clone, PartialEq, Eq)]
pub enum ExecutionError {
    NonTextualCommand(String),
    InvalidVariant { command: String, variant: String },
    WorkerStopped,
    Startup(String),
    Command(String),
    InvalidCString,
    WindowsOnly,
}

/// The message that describes an error.
pub open spec fn error_message(e: ExecutionError) -> Seq<char> {
    match e {
        ExecutionError::NonTextualCommand(t) => "command topic `"@ + t@
            + "` cannot be executed as plain debugger text"@,
        ExecutionError::InvalidVariant { command, variant } => "variant `"@ + variant@
            + "` is not documented for `"@ + command@ + "`"@,
        ExecutionError::WorkerStopped => "dispatcher worker stopped"@,
        ExecutionError::Startup(m) => "debugger session failed to start: "@ + m@,
        ExecutionError::Command(m) => "command execution failed: "@ + m@,
        ExecutionError::InvalidCString => "string contains an embedded NUL byte"@,
        ExecutionError::WindowsOnly => "this execution mode is only available on Windows"@,
    }
}

impl ExecutionError {
    /// The human-readable message of the error.
    pub fn message(&self) -> (res: String)
        ensures
            res@ == error_message(*self),
    {
        let mut s = String::new();
        match self {
            ExecutionError::NonTextualCommand(t) => {
                push_str(&mut s, "command topic `");
                push_str(&mut s, t.as_str());
                push_str(&mut s, "` cannot be executed as plain debugger text");
            },
            ExecutionError::InvalidVariant { command, variant } => {
                push_str(&mut s, "variant `");
                push_str(&mut s, variant.as_str());
                push_str(&mut s, "` is not documented for `");
                push_str(&mut s, command.as_str());
                push_str(&mut s, "`");
            },
            ExecutionError::WorkerStopped => {
                push_str(&mut s, "dispatcher worker stopped");
            },
            ExecutionError::Startup(m) => {
                push_str(&mut s, "debugger session failed to start: ");
                push_str(&mut s, m.as_str());
            },
            ExecutionError::Command(m) => {
                push_str(&mut s, "command execution failed: ");
                push_str(&mut s, m.as_str());
            },
            ExecutionError::InvalidCString => {
                push_str(&mut s, "string contains an embedded NUL byte");
            },
            ExecutionError::WindowsOnly => {
                push_str(&mut s, "this execution mode is only available on Windows");
            },
        }
        s
    }
}

/// The status name, whether the target runs, whether the debugger is busy,
/// and the summary of a raw engine execution status.
pub open spec fn status_row(raw: u32) -> (Seq<char>, bool, bool, Seq<char>) {
    if raw == EXECUTION_STATUS_NO_CHANGE {
        ("no_change"@, false, false, "Debugger state is unchanged and commands can be issued."@)
    } else if raw == EXECUTION_STATUS_GO {
        ("go"@, true, false, "The target is running."@)
    } else if raw == EXECUTION_STATUS_GO_HANDLED {
        ("go_handled"@, true, false, "The target is running after a handled event."@)
    } else if raw == EXECUTION_STATUS_GO_NOT_HANDLED {
        ("go_not_handled"@, true, false, "The target is running after an unhandled event."@)
    } else if raw == EXECUTION_STATUS_STEP_OVER {
        ("step_over"@, true, false, "The target is running while step-over is in progress."@)
    } else if raw == EXECUTION_STATUS_STEP_INTO {
        ("step_into"@, true, false, "The target is running while step-into is in progress."@)
    } else if raw == EXECUTION_STATUS_BREAK {
        ("break"@, false, false, "The target is broken in and ready for debugger commands."@)
    } else if raw == EXECUTION_STATUS_NO_DEBUGGEE {
        ("no_debuggee"@, false, false, "No debuggee is currently active."@)
    } else if raw == EXECUTION_STATUS_STEP_BRANCH {
        ("step_branch"@, true, false, "The target is running while step-branch is in progress."@)
    } else if raw == EXECUTION_STATUS_IGNORE_EVENT {
        (
            "ignore_event"@,
            false,
            true,
            "The debugger is processing an event and is not ready for commands."@,
        )
    } else if raw == EXECUTION_STATUS_RESTART_REQUESTED {
        ("restart_requested"@, false, true, "The debugger is restarting the target."@)
    } else if raw == EXECUTION_STATUS_REVERSE_GO {
        ("reverse_go"@, true, false, "The target is running in reverse execution mode."@)
    } else if raw == EXECUTION_STATUS_REVERSE_STEP_BRANCH {
        ("reverse_step_branch"@, true, false, "The target is reverse-stepping through a branch."@)
    } else if raw == EXECUTION_STATUS_REVERSE_STEP_OVER {
        ("reverse_step_over"@, true, false, "The target is reverse step-over running."@)
    } else if raw == EXECUTION_STATUS_REVERSE_STEP_INTO {
        ("reverse_step_into"@, true, false, "The target is reverse step-into running."@)
    } else if raw == EXECUTION_STATUS_OUT_OF_SYNC {
        ("out_of_sync"@, false, true, "The debugger is out of sync and not ready for commands."@)
    } else if raw == EXECUTION_STATUS_WAIT_INPUT {
        (
            "wait_input"@,
            false,
            true,
            "The debugger is waiting for input and is treated as busy."@,
        )
    } else if raw == EXECUTION_STATUS_TIMEOUT {
        ("timeout"@, false, true, "The debugger reported a timeout and is treated as busy."@)
    } else {
        (
            "unknown"@,
            false,
            true,
            "The debugger returned an unknown execution status; interrupt before issuing commands."@,
        )
    }
}

/// What the debugger reports about its ability to take commands.
#[derive(Debug, Clone, PartialEq, Eq)]
pub struct DebuggerExecutionState {
    pub raw_status: u32,
    pub status_name: String,
    pub running: bool,
    pub busy: bool,
    pub ready_for_commands: bool,
    pub requires_interrupt_before_command: bool,
    pub summary: String,
}

impl DebuggerExecutionState {
    /// The state is the one that the engine status `raw` describes: name,
    /// flags and summary from the status table; ready exactly when neither
    /// running nor busy; an interrupt is needed exactly when not ready.
    pub open spec fn is_status(&self, raw: u32) -> bool {
        let row = status_row(raw);
        &&& self.raw_status == raw
        &&& self.status_name@ == row.0
        &&& self.running == row.1
        &&& self.busy == row.2
        &&& self.ready_for_commands == (!row.1 && !row.2)
        &&& self.requires_interrupt_before_command == !(!row.1 && !row.2)
        &&& self.summary@ == row.3
    }

    /// The state that an engine execution status describes.
    pub fn from_raw(raw_status: u32) -> (res: Self)
        ensures
            res.is_status(raw_status),
    {
        let (status_name, running, busy, summary): (&str, bool, bool, &str) = if raw_status
            == EXECUTION_STATUS_NO_CHANGE {
            ("no_change", false, false, "Debugger state is unchanged and commands can be issued.")
        } else if raw_status == EXECUTION_STATUS_GO {
            ("go", true, false, "The target is running.")
        } else if raw_status == EXECUTION_STATUS_GO_HANDLED {
            ("go_handled", true, false, "The target is running after a handled event.")
        } else if raw_status == EXECUTION_STATUS_GO_NOT_HANDLED {
            ("go_not_handled", true, false, "The target is running after an unhandled event.")
        } else if raw_status == EXECUTION_STATUS_STEP_OVER {
            ("step_over", true, false, "The target is running while step-over is in progress.")
        } else if raw_status == EXECUTION_STATUS_STEP_INTO {
            ("step_into", true, false, "The target is running while step-into is in progress.")
        } else if raw_status == EXECUTION_STATUS_BREAK {
            ("break", false, false, "The target is broken in and ready for debugger commands.")
        } else if raw_status == EXECUTION_STATUS_NO_DEBUGGEE {
            ("no_debuggee", false, false, "No debuggee is currently active.")
        } else if raw_status == EXECUTION_STATUS_STEP_BRANCH {
            ("step_branch", true, false, "The target is running while step-branch is in progress.")
        } else if raw_status == EXECUTION_STATUS_IGNORE_EVENT {
            (
                "ignore_event",
                false,
                true,
                "The debugger is processing an event and is not ready for commands.",
            )
        } else if raw_status == EXECUTION_STATUS_RESTART_REQUESTED {
            ("restart_requested", false, true, "The debugger is restarting the target.")
        } else if raw_status == EXECUTION_STATUS_REVERSE_GO {
            ("reverse_go", true, false, "The target is running in reverse execution mode.")
        } else if raw_status == EXECUTION_STATUS_REVERSE_STEP_BRANCH {
            ("reverse_step_branch", true, false, "The target is reverse-stepping through a branch.")
        } else if raw_status == EXECUTION_STATUS_REVERSE_STEP_OVER {
            ("reverse_step_over", true, false, "The target is reverse step-over running.")
        } else if raw_status == EXECUTION_STATUS_REVERSE_STEP_INTO {
            ("reverse_step_into", true, false, "The target is reverse step-into running.")
        } else if raw_status == EXECUTION_STATUS_OUT_OF_SYNC {
            ("out_of_sync", false, true, "The debugger is out of sync and not ready for commands.")
        } else if raw_status == EXECUTION_STATUS_WAIT_INPUT {
            (
                "wait_input",
                false,
                true,
                "The debugger is waiting for input and is treated as busy.",
            )
        } else if raw_status == EXECUTION_STATUS_TIMEOUT {
            ("timeout", false, true, "The debugger reported a timeout and is treated as busy.")
        } else {
            (
                "unknown",
                false,
                true,
                "The debugger returned an unknown execution status; interrupt before issuing commands.",
            )
        };
        let ready_for_commands = !running && !busy;
        DebuggerExecutionState {
            raw_status,
            status_name: status_name.to_owned(),
            running,
            busy,
            ready_for_commands,
            requires_interrupt_before_command: !ready_for_commands,
            summary: summary.to_owned(),
        }
    }

    /// The state of a target that is broken in.
    pub fn break_state() -> (res: Self)
        ensures
            res.is_status(EXECUTION_STATUS_BREAK),
    {
        Self::from_raw(EXECUTION_STATUS_BREAK)
    }

    /// A copy of the state.
    pub fn snapshot(&self) -> (res: Self)
        ensures
            res == *self,
    {
        DebuggerExecutionState {
            raw_status: self.raw_status,
            status_name: self.status_name.clone(),
            running: self.running,
            busy: self.busy,
            ready_for_commands: self.ready_for_commands,
            requires_interrupt_before_command: self.requires_interrupt_before_command,
            summary: self.summary.clone(),
        }
    }
}

/// The position of the first token at or after `i` that equals `v` up to
/// ASCII case, or -1.
pub open spec fn first_token_match(tokens: Seq<Seq<char>>, v: Seq<char>, i: int) -> int
    decreases tokens.len() - i,
{
    if i < 0 || i >= tokens.len() {
        -1
    } else if eq_ignore_case(tokens[i], v) {
        i
    } else {
        first_token_match(tokens, v, i + 1)
    }
}

pub proof fn lemma_first_token_match(tokens: Seq<Seq<char>>, v: Seq<char>, i: int)
    requires
        0 <= i <= tokens.len(),
    ensures
        first_token_match(tokens, v, i) == -1 || i <= first_token_match(tokens, v, i)
            < tokens.len(),
        first_token_match(tokens, v, i) >= 0 ==> eq_ignore_case(
            tokens[first_token_match(tokens, v, i)],
            v,
        ),
    decreases tokens.len() - i,
{
    if i < tokens.len() && !eq_ignore_case(tokens[i], v) {
        lemma_first_token_match(tokens, v, i + 1);
    }
}

/// The spelling a command is built with: with a requested variant (trimmed,
/// not blank), the first token that equals it up to ASCII case, and nothing
/// when no token does; without one, the primary token.
pub open spec fn selected_token(entry: CatalogEntry, variant: Option<Seq<char>>) -> Option<
    Seq<char>,
> {
    match nonblank_trim(variant) {
        Some(v) => {
            let i = first_token_match(entry.token_views(), v, 0);
            if i >= 0 {
                Some(entry.token_views()[i])
            } else {
                None
            }
        },
        None => Some(entry.spec_primary_token()),
    }
}

/// The command text: the spelling, followed by a space and the trimmed
/// arguments when they are not blank.
pub open spec fn command_text(selected: Seq<char>, arguments: Option<Seq<char>>) -> Seq<char> {
    match nonblank_trim(arguments) {
        Some(a) => selected + " "@ + a,
        None => selected,
    }
}

/// The position of the first token of `entry` that equals `v` up to ASCII
/// case.
fn find_variant(entry: &CatalogEntry, v: &Vec<char>) -> (res: Option<usize>)
    ensures
        match res {
            Some(i) => i as int == first_token_match(entry.token_views(), v@, 0),
            None => first_token_match(entry.token_views(), v@, 0) == -1,
        },
{
    let ghost tv = entry.token_views();
    let mut i: usize = 0;
    while i < entry.tokens.len()
        invariant
            0 <= i <= entry.tokens@.len(),
            tv == entry.token_views(),
            tv.len() == entry.tokens@.len(),
            first_token_match(tv, v@, 0) == first_token_match(tv, v@, i as int),
        decreases entry.tokens.len() - i,
    {
        let t = chars_of(entry.tokens[i].as_str());
        assert(t@ == tv[i as int]);
        if eq_ignore_case_chars(&t, v) {
            return Some(i);
        }
        i = i + 1;
    }
    None
}

/// Renders the debugger command for an entry: the requested variant (or the
/// primary token) followed by the arguments. Entries that are not plain
/// debugger text and variants that the entry does not document are refused.
pub fn build_command(entry: &CatalogEntry, variant: Option<&str>, arguments: Option<&str>) -> (res:
    Result<String, ExecutionError>)
    ensures
        match res {
            Ok(cmd) => {
                &&& entry.supports_text_execution
                &&& selected_token(*entry, opt_str_view(variant)) matches Some(sel)
                &&& cmd@ == command_text(sel, opt_str_view(arguments))
            },
            Err(ExecutionError::NonTextualCommand(t)) => !entry.supports_text_execution && t@
                == entry.title@,
            Err(ExecutionError::InvalidVariant { command, variant: v }) => {
                &&& entry.supports_text_execution
                &&& selected_token(*entry, opt_str_view(variant)) is None
                &&& command@ == entry.title@
                &&& nonblank_trim(opt_str_view(variant)) == Some(v@)
            },
            Err(_) => false,
        },
{
    if !entry.supports_text_execution {
        return Err(ExecutionError::NonTextualCommand(entry.title.clone()));
    }
    let mut out: String = match trimmed_nonblank(variant) {
        Some(value) => {
            let v = chars_of(value.as_str());
            match find_variant(entry, &v) {
                Some(i) => {
                    proof {
                        lemma_first_token_match(entry.token_views(), v@, 0);
                    }
                    entry.tokens[i].clone()
                },
                None => {
                    return Err(
                        ExecutionError::InvalidVariant { command: entry.title.clone(), variant: value },
                    );
                },
            }
        },
        None => entry.primary_token().to_owned(),
    };
    match trimmed_nonblank(arguments) {
        Some(a) => {
            push_str(&mut out, " ");
            push_str(&mut out, a.as_str());
        },
        None => {},
    }
    Ok(out)
}

// ---------------------------------------------------------------------------
// Scripted responses.
// ---------------------------------------------------------------------------

/// The map that a list of `(command, output)` pairs describes; a later pair
/// overrides an earlier one with the same command.
pub open spec fn pairs_map(p: Seq<(String, String)>) -> Map<Seq<char>, Seq<char>>
    decreases p.len(),
{
    if p.len() == 0 {
        Map::empty()
    } else {
        pairs_map(p.drop_last()).insert(p.last().0@, p.last().1@)
    }
}

/// No command occurs twice.
pub open spec fn keys_unique(p: Seq<(String, String)>) -> bool {
    forall|i: int, j: int| 0 <= i < j < p.len() ==> (#[trigger] p[i]).0@ != (#[trigger] p[j]).0@
}

/// The output scripted for each command.
pub struct MockResponses {
    pairs: Vec<(String, String)>,
}

impl View for MockResponses {
    type V = Map<Seq<char>, Seq<char>>;

    closed spec fn view(&self) -> Map<Seq<char>, Seq<char>> {
        pairs_map(self.pairs@)
    }
}

proof fn lemma_pairs_map_key(p: Seq<(String, String)>, i: int)
    requires
        keys_unique(p),
        0 <= i < p.len(),
    ensures
        pairs_map(p).contains_key(p[i].0@),
        pairs_map(p)[p[i].0@] == p[i].1@,
    decreases p.len(),
{
    if i < p.len() - 1 {
        lemma_pairs_map_key(p.drop_last(), i);
    }
}

proof fn lemma_pairs_map_absent(p: Seq<(String, String)>, k: Seq<char>)
    requires
        forall|i: int| 0 <= i < p.len() ==> (#[trigger] p[i]).0@ != k,
    ensures
        !pairs_map(p).contains_key(k),
    decreases p.len(),
{
    if p.len() > 0 {
        lemma_pairs_map_absent(p.drop_last(), k);
    }
}

proof fn lemma_pairs_map_update(p: Seq<(String, String)>, i: int, x: (String, String))
    requires
        keys_unique(p),
        0 <= i < p.len(),
        p[i].0@ == x.0@,
    ensures
        pairs_map(p.update(i, x)) == pairs_map(p).insert(x.0@, x.1@),
    decreases p.len(),
{
    let q = p.update(i, x);
    if i == p.len() - 1 {
        assert(q.drop_last() =~= p.drop_last());
        assert(pairs_map(q) =~= pairs_map(p).insert(x.0@, x.1@));
    } else {
        assert(q.drop_last() =~= p.drop_last().update(i, x));
        lemma_pairs_map_update(p.drop_last(), i, x);
        assert(p.last().0@ != x.0@);
        assert(pairs_map(q) =~= pairs_map(p).insert(x.0@, x.1@));
    }
}

impl MockResponses {
    #[verifier::type_invariant]
    spec fn inv(&self) -> bool {
        keys_unique(self.pairs@)
    }

    /// No scripted outputs.
    pub fn new() -> (res: Self)
        ensures
            res@ == Map::<Seq<char>, Seq<char>>::empty(),
    {
        MockResponses { pairs: Vec::new() }
    }

    /// The position of the pair for `command`.
    fn position(&self, command: &str) -> (res: Option<usize>)
        ensures
            match res {
                Some(i) => i < self.pairs@.len() && self.pairs@[i as int].0@ == command@,
                None => forall|i: int| 0 <= i < self.pairs@.len() ==> (#[trigger] self.pairs@[i]).0@ != command@,
            },
    {
        let key = command.to_owned();
        let mut i: usize = 0;
        while i < self.pairs.len()
            invariant
                0 <= i <= self.pairs@.len(),
                key@ == command@,
                forall|j: int| 0 <= j < i ==> (#[trigger] self.pairs@[j]).0@ != command@,
            decreases self.pairs.len() - i,
        {
            if self.pairs[i].0 == key {
                return Some(i);
            }
            i = i + 1;
        }
        None
    }

    /// The output scripted for `command`.
    pub fn get(&self, command: &str) -> (res: Option<&String>)
        ensures
            match res {
                Some(out) => self@.contains_key(command@) && self@[command@] == out@,
                None => !self@.contains_key(command@),
            },
    {
        proof {
            use_type_invariant(self);
        }
        match self.position(command) {
            Some(i) => {
                proof {
                    lemma_pairs_map_key(self.pairs@, i as int);
                }
                Some(&self.pairs[i].1)
            },
            None => {
                proof {
                    lemma_pairs_map_absent(self.pairs@, command@);
                }
                None
            },
        }
    }

    /// Scripts `output` for `command`, replacing what was scripted for it;
    /// returns the replaced output.
    pub fn insert(&mut self, command: String, output: String) -> (res: Option<String>)
        ensures
            final(self)@ == old(self)@.insert(command@, output@),
            match res {
                Some(prev) => old(self)@.contains_key(command@) && old(self)@[command@] == prev@,
                None => !old(self)@.contains_key(command@),
            },
    {
        proof {
            use_type_invariant(&*self);
        }
        match self.position(command.as_str()) {
            Some(i) => {
                let prev = self.pairs[i].1.clone();
                proof {
                    lemma_pairs_map_key(self.pairs@, i as int);
                    lemma_pairs_map_update(self.pairs@, i as int, (command, output));
                }
                let mut pairs: Vec<(String, String)> = Vec::new();
                std::mem::swap(&mut pairs, &mut self.pairs);
                let ghost before = pairs@;
                pairs.set(i, (command, output));
                proof {
                    assert(pairs@ == before.update(i as int, (command, output)));
                    assert(keys_unique(pairs@));
                }
                self.pairs = pairs;
                Some(prev)
            },
            None => {
                proof {
                    lemma_pairs_map_absent(self.pairs@, command@);
                }
                let mut pairs: Vec<(String, String)> = Vec::new();
                std::mem::swap(&mut pairs, &mut self.pairs);
                let ghost before = pairs@;
                pairs.push((command, output));
                proof {
                    assert(pairs@.drop_last() =~= before);
                    assert(keys_unique(pairs@));
                }
                self.pairs = pairs;
                None
            },
        }
    }
}

// ---------------------------------------------------------------------------
// Execution.
// ---------------------------------------------------------------------------

#[verifier::external_type_specification]
#[verifier::external_body]
pub struct ExPathBuf(std::path::PathBuf);

/// Where commands are executed.
pub enum ExecutionMode {
    /// The debugger session that hosts the extension.
    CurrentSession,
    /// A process that the debugger attaches to.
    AttachProcess { pid: u32, noninvasive: bool },
    /// A crash dump file.
    DumpFile { path: std::path::PathBuf },
    /// Scripted outputs, with no debugger behind them.
    Mock { responses: MockResponses },
}

/// The outcome of a command that ran.
#[derive(Debug, Clone, PartialEq, Eq)]
pub struct CommandExecutionResult {
    pub command: String,
    pub output: String,
    pub state_before: DebuggerExecutionState,
    pub state_after: DebuggerExecutionState,
}

/// The explanation given when a command is refused because the debugger is
/// not ready for it.
pub open spec fn not_ready_text(status_name: Seq<char>, summary: Seq<char>) -> Seq<char> {
    "debugger is not ready for commands (status: "@ + status_name + "). "@ + summary
        + " Query execution state first and call `windbg_interrupt_target` if you need to break in."@
}

/// Commands may run in `state` exactly when it needs no interrupt first;
/// otherwise the refusal names the status and its summary.
pub fn require_ready(state: &DebuggerExecutionState) -> (res: Result<(), ExecutionError>)
    ensures
        match res {
            Ok(()) => !state.requires_interrupt_before_command,
            Err(e) => {
                &&& state.requires_interrupt_before_command
                &&& e matches ExecutionError::Command(m)
                &&& m@ == not_ready_text(state.status_name@, state.summary@)
            },
        },
{
    if state.requires_interrupt_before_command {
        let mut m = String::new();
        push_str(&mut m, "debugger is not ready for commands (status: ");
        push_str(&mut m, state.status_name.as_str());
        push_str(&mut m, "). ");
        push_str(&mut m, state.summary.as_str());
        push_str(
            &mut m,
            " Query execution state first and call `windbg_interrupt_target` if you need to break in.",
        );
        return Err(ExecutionError::Command(m));
    }
    Ok(())
}

/// The output a mock produces for a command: the scripted output, or a
/// note that the command ran.
pub open spec fn mock_output(responses: Map<Seq<char>, Seq<char>>, command: Seq<char>) -> Seq<
    char,
> {
    if responses.contains_key(command) {
        responses[command]
    } else {
        "mock-executed: "@ + command
    }
}

/// An executor that answers from scripted outputs and keeps a debugger
/// state of its own.
pub struct MockExecutor {
    pub responses: MockResponses,
    pub state: DebuggerExecutionState,
}

impl MockExecutor {
    /// The current state.
    pub fn query_state(&mut self) -> (res: Result<DebuggerExecutionState, ExecutionError>)
        ensures
            *final(self) == *old(self),
            res matches Ok(s) && s == old(self).state,
    {
        Ok(self.state.snapshot())
    }

    /// Runs a command without looking at the state: the scripted output,
    /// or `mock-executed: {command}`.
    pub fn execute_ready(&mut self, command: &str) -> (res: Result<String, ExecutionError>)
        ensures
            *final(self) == *old(self),
            res matches Ok(out) && out@ == mock_output(old(self).responses@, command@),
    {
        match self.responses.get(command) {
            Some(out) => Ok(out.clone()),
            None => {
                let mut s = String::new();
                push_str(&mut s, "mock-executed: ");
                push_str(&mut s, command);
                Ok(s)
            },
        }
    }

    /// Breaks in: the state becomes the break state.
    pub fn interrupt(&mut self) -> (res: Result<DebuggerExecutionState, ExecutionError>)
        ensures
            final(self).responses == old(self).responses,
            final(self).state.is_status(EXECUTION_STATUS_BREAK),
            res matches Ok(s) && s == final(self).state,
    {
        self.state = DebuggerExecutionState::break_state();
        Ok(self.state.snapshot())
    }

    /// Runs a command when the debugger is ready for it; refuses it, with
    /// the state unchanged, when an interrupt is needed first.
    pub fn execute(&mut self, command: &str) -> (res: Result<CommandExecutionResult, ExecutionError>)
        ensures
            *final(self) == *old(self),
            match res {
                Ok(r) => {
                    &&& !old(self).state.requires_interrupt_before_command
                    &&& r.command@ == command@
                    &&& r.output@ == mock_output(old(self).responses@, command@)
                    &&& r.state_before == old(self).state
                    &&& r.state_after == old(self).state
                },
                Err(e) => {
                    &&& old(self).state.requires_interrupt_before_command
                    &&& e matches ExecutionError::Command(m)
                    &&& m@ == not_ready_text(old(self).state.status_name@, old(self).state.summary@)
                },
            },
    {
        let state_before = match self.query_state() {
            Ok(s) => s,
            Err(e) => return Err(e),
        };
        match require_ready(&state_before) {
            Ok(()) => {},
            Err(e) => return Err(e),
        }
        let output = match self.execute_ready(command) {
            Ok(o) => o,
            Err(e) => return Err(e),
        };
        let state_after = match self.query_state() {
            Ok(s) => s,
            Err(e) => return Err(e),
        };
        Ok(CommandExecutionResult { command: command.to_owned(), output, state_before, state_after })
    }
}

/// What waiting for a requested break does after looking at the state.
pub enum WaitStep {
    /// The debugger accepts commands in this state.
    Ready,
    /// The deadline has passed; this is the error to report.
    TimedOut(ExecutionError),
    /// Wait for an engine event and look again.
    Poll,
}

/// The explanation given when a break does not arrive in time.
pub open spec fn timeout_text(status_name: Seq<char>, raw: u32) -> Seq<char> {
    "timed out waiting for debugger to become ready; last status was "@ + status_name + " ("@
        + decimal(raw as nat) + ")"@
}

/// One round of waiting for a break: done once the state accepts commands;
/// else a timeout once the deadline has passed, naming the last status;
/// else another poll.
pub fn next_wait_step(state: &DebuggerExecutionState, deadline_passed: bool) -> (res: WaitStep)
    ensures
        state.ready_for_commands ==> res is Ready,
        !state.ready_for_commands && !deadline_passed ==> res is Poll,
        !state.ready_for_commands && deadline_passed ==> (res matches WaitStep::TimedOut(
            ExecutionError::Command(m),
        ) && m@ == timeout_text(state.status_name@, state.raw_status)),
{
    if state.ready_for_commands {
        return WaitStep::Ready;
    }
    if deadline_passed {
        let mut m = String::new();
        push_str(&mut m, "timed out waiting for debugger to become ready; last status was ");
        push_str(&mut m, state.status_name.as_str());
        push_str(&mut m, " (");
        push_decimal_str(&mut m, state.raw_status as usize);
        push_str(&mut m, ")");
        return WaitStep::TimedOut(ExecutionError::Command(m));
    }
    WaitStep::Poll
}

/// The executor a mode calls for.
pub enum ExecutorChoice {
    /// The scripted mock, ready to use.
    Mock(MockExecutor),
    /// The debugger engine, to be connected as the mode says.
    Engine(ExecutionMode),
}

/// Chooses the executor for a mode: the mock, which starts broken in, for
/// the mock mode; the debugger engine for the other modes where the engine
/// is available (on Windows), and otherwise the refusal that the mode is
/// only available on Windows.
pub fn build_executor(mode: ExecutionMode, engine_available: bool) -> (res: Result<
    ExecutorChoice,
    ExecutionError,
>)
    ensures
        match mode {
            ExecutionMode::Mock { responses } => {
                &&& res matches Ok(ExecutorChoice::Mock(m))
                &&& m.responses == responses
                &&& m.state.is_status(EXECUTION_STATUS_BREAK)
            },
            _ => if engine_available {
                res matches Ok(ExecutorChoice::Engine(e)) && e == mode
            } else {
                res matches Err(ExecutionError::WindowsOnly)
            },
        },
{
    match mode {
        ExecutionMode::Mock { responses } => Ok(
            ExecutorChoice::Mock(
                MockExecutor { responses, state: DebuggerExecutionState::break_state() },
            ),
        ),
        other => {
            if engine_available {
                Ok(ExecutorChoice::Engine(other))
            } else {
                Err(ExecutionError::WindowsOnly)
            }
        },
    }
}

// ---------------------------------------------------------------------------
// Laws.
// ---------------------------------------------------------------------------

/// No engine status describes a target that runs while the debugger is
/// busy; the debugger is ready exactly for the statuses that are neither.
pub proof fn law_running_and_busy_exclusive(raw: u32)
    ensures
        !(status_row(raw).1 && status_row(raw).2),
        (!status_row(raw).1 && !status_row(raw).2) <==> (raw == EXECUTION_STATUS_NO_CHANGE || raw
            == EXECUTION_STATUS_BREAK || raw == EXECUTION_STATUS_NO_DEBUGGEE),
{
}

/// A command is refused exactly when the target runs or the debugger is
/// busy: that is when an interrupt is needed before commands.
pub proof fn law_refused_exactly_when_running_or_busy(s: DebuggerExecutionState, raw: u32)
    requires
        s.is_status(raw),
    ensures
        s.requires_interrupt_before_command <==> (s.running || s.busy),
        s.ready_for_commands <==> !s.requires_interrupt_before_command,
{
}

/// Once the target is broken in, commands are accepted: the break state
/// needs no further interrupt, so an interrupted mock executes commands.
pub proof fn law_break_state_accepts_commands(s: DebuggerExecutionState)
    requires
        s.is_status(EXECUTION_STATUS_BREAK),
    ensures
        s.ready_for_commands,
        !s.requires_interrupt_before_command,
{
}

/// A command produces the output last scripted for it; scripting one
/// command leaves the output of every other command as it was.
pub proof fn law_scripted_output_after_insert(
    responses: Map<Seq<char>, Seq<char>>,
    command: Seq<char>,
    output: Seq<char>,
    other: Seq<char>,
)
    ensures
        mock_output(responses.insert(command, output), command) == output,
        other != command ==> mock_output(responses.insert(command, output), other) == mock_output(
            responses,
            other,
        ),
{
}

proof fn lemma_first_token_match_found(tokens: Seq<Seq<char>>, v: Seq<char>, start: int, i: int)
    requires
        0 <= start <= i < tokens.len(),
        lower(tokens[i]) == lower(v),
    ensures
        start <= first_token_match(tokens, v, start) <= i,
    decreases i - start,
{
    if !eq_ignore_case(tokens[start], v) {
        lemma_first_token_match_found(tokens, v, start + 1, i);
    }
}

/// Every documented spelling is an accepted variant: when the requested
/// variant equals one of the entry's tokens up to ASCII case (and has no
/// surrounding whitespace), a spelling is selected; it is one of the entry's
/// tokens, equal to the request up to ASCII case, and the built command text
/// starts with it.
pub proof fn law_documented_variants_accepted(
    entry: CatalogEntry,
    variant: Seq<char>,
    arguments: Option<Seq<char>>,
    i: int,
)
    requires
        0 <= i < entry.tokens@.len(),
        lower(entry.tokens@[i]@) == lower(variant),
        variant.len() > 0,
        trim(variant) == variant,
    ensures
        selected_token(entry, Some(variant)) matches Some(sel) && (exists|m: int|
            0 <= m <= i && sel == #[trigger] entry.tokens@[m]@) && lower(sel) == lower(variant)
            && command_text(sel, arguments).take(sel.len() as int) == sel,
{
    let tv = entry.token_views();
    assert(tv[i] == entry.tokens@[i]@);
    lemma_first_token_match_found(tv, variant, 0, i);
    lemma_first_token_match(tv, variant, 0);
    let m = first_token_match(tv, variant, 0);
    let sel = tv[m];
    assert(sel == entry.tokens@[m]@);
    assert(selected_token(entry, Some(variant)) == Some(sel));
    match nonblank_trim(arguments) {
        Some(a) => {
            assert((sel + " "@ + a).take(sel.len() as int) =~= sel);
        },
        None => {
            assert(sel.take(sel.len() as int) =~= sel);
        },
    }
}

} // verus!

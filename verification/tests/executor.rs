use windbg_mcp_rs::catalog::{Catalog, CatalogEntry, CatalogSection};
use windbg_mcp_rs::executor::{
    build_command, build_executor, next_wait_step, require_ready, DebuggerExecutionState,
    ExecutionError, ExecutionMode, ExecutorChoice, MockExecutor, MockResponses, WaitStep, EXECUTION_STATUS_BREAK,
    EXECUTION_STATUS_GO,
};

fn entry(id: &str, title: &str, tokens: &[&str], text: bool) -> CatalogEntry {
    CatalogEntry {
        id: id.to_string(),
        section: CatalogSection::Command,
        title: title.to_string(),
        summary: String::new(),
        tokens: tokens.iter().map(|t| t.to_string()).collect(),
        supports_text_execution: text,
        user_mode_syntax: None,
        kernel_mode_syntax: None,
        documentation: String::new(),
    }
}

fn fixture() -> Catalog {
    Catalog::from_entries(vec![
        entry("bp_bu_bm_set_breakpoint", "bp, bu, bm (Set Breakpoint)", &["bp", "bu", "bm"], true),
        entry("dt_display_type", "dt (Display Type)", &["dt"], true),
        entry("ctrl_c_break", "CTRL+C (Break)", &["CTRL+C"], false),
    ])
}

fn mock_executor(responses: MockResponses) -> Result<MockExecutor, ExecutionError> {
    match build_executor(ExecutionMode::Mock { responses }, false)? {
        ExecutorChoice::Mock(mock) => Ok(mock),
        ExecutorChoice::Engine(_) => panic!("the mock needs no engine"),
    }
}

fn responses(pairs: &[(&str, &str)]) -> MockResponses {
    let mut r = MockResponses::new();
    for (command, output) in pairs {
        r.insert(command.to_string(), output.to_string());
    }
    r
}

#[test]
fn build_command_uses_first_variant_by_default() {
    let catalog = fixture();
    let entry = catalog.lookup("bp").expect("bp entry should exist");
    let rendered = build_command(entry, None, Some("ntdll!NtClose")).expect("command should render");
    assert_eq!(rendered, "bp ntdll!NtClose");
}

#[test]
fn build_command_rejects_unknown_variant() {
    let catalog = fixture();
    let entry = catalog.lookup("bp").expect("bp entry should exist");
    let error = build_command(entry, Some("bogus"), None).expect_err("variant must fail");
    assert!(matches!(error, ExecutionError::InvalidVariant { .. }));
}

#[test]
fn mock_dispatcher_supports_interrupt() {
    let mut executor = mock_executor(MockResponses::new())
        .expect("mock dispatcher should start");
    let result = executor.interrupt().expect("interrupt should succeed");
    assert!(result.ready_for_commands);
    assert_eq!(result.status_name, "break");
}

#[test]
fn mock_executor_rejects_execution_when_running() {
    let mut executor = MockExecutor {
        responses: responses(&[("g", "continued execution")]),
        state: DebuggerExecutionState::from_raw(EXECUTION_STATUS_GO),
    };
    let error = executor.execute("g").expect_err("execute should fail");
    assert!(error.message().contains("debugger is not ready for commands"));
}

#[test]
fn command_tool_uses_mock_dispatcher() {
    let catalog = fixture();
    let mut executor = mock_executor(responses(&[("dt _PEB_LDR_DATA", "ntdll!_PEB_LDR_DATA")]))
    .expect("dispatcher should start");
    let entry = catalog.lookup("dt").expect("dt entry should exist");
    let command = build_command(entry, None, Some("_PEB_LDR_DATA")).expect("tool should succeed");
    let execution = executor.execute(&command).expect("tool should succeed");
    assert_eq!(command, "dt _PEB_LDR_DATA");
    assert_eq!(execution.output, "ntdll!_PEB_LDR_DATA");
}

#[test]
fn state_tool_returns_mock_break_state() {
    let mut executor = mock_executor(MockResponses::new())
        .expect("dispatcher should start");
    let state = executor.query_state().expect("state query should succeed");
    assert_eq!(state, DebuggerExecutionState::break_state());
}

#[test]
fn mock_dispatcher_returns_scripted_output() {
    let mut executor = mock_executor(responses(&[("dt _PEB_LDR_DATA", "ntdll!_PEB_LDR_DATA")]))
    .expect("mock dispatcher should start");
    let output = executor.execute("dt _PEB_LDR_DATA").expect("mock command should succeed");
    assert_eq!(output.output, "ntdll!_PEB_LDR_DATA");
}

// ---------------------------------------------------------------------------
// Further cases.
// ---------------------------------------------------------------------------

#[test]
fn execution_status_table() {
    let table: [(u32, &str, bool, bool); 19] = [
        (0, "no_change", false, false),
        (1, "go", true, false),
        (2, "go_handled", true, false),
        (3, "go_not_handled", true, false),
        (4, "step_over", true, false),
        (5, "step_into", true, false),
        (6, "break", false, false),
        (7, "no_debuggee", false, false),
        (8, "step_branch", true, false),
        (9, "ignore_event", false, true),
        (10, "restart_requested", false, true),
        (11, "reverse_go", true, false),
        (12, "reverse_step_branch", true, false),
        (13, "reverse_step_over", true, false),
        (14, "reverse_step_into", true, false),
        (15, "out_of_sync", false, true),
        (16, "wait_input", false, true),
        (17, "timeout", false, true),
        (18, "unknown", false, true),
    ];
    for (raw, name, running, busy) in table {
        let s = DebuggerExecutionState::from_raw(raw);
        assert_eq!(s.raw_status, raw);
        assert_eq!(s.status_name, name);
        assert_eq!(s.running, running);
        assert_eq!(s.busy, busy);
        assert_eq!(s.ready_for_commands, !running && !busy);
        assert_eq!(s.requires_interrupt_before_command, running || busy);
    }
    assert_eq!(DebuggerExecutionState::from_raw(u32::MAX).status_name, "unknown");
    assert_eq!(
        DebuggerExecutionState::from_raw(EXECUTION_STATUS_BREAK).summary,
        "The target is broken in and ready for debugger commands."
    );
    assert_eq!(
        DebuggerExecutionState::from_raw(99).summary,
        "The debugger returned an unknown execution status; interrupt before issuing commands."
    );
}

#[test]
fn refusal_names_status_and_summary() {
    let running = DebuggerExecutionState::from_raw(EXECUTION_STATUS_GO);
    let error = require_ready(&running).expect_err("running target must be refused");
    assert_eq!(
        error,
        ExecutionError::Command(
            "debugger is not ready for commands (status: go). The target is running. Query execution state first and call `windbg_interrupt_target` if you need to break in.".to_string()
        )
    );
    assert!(require_ready(&DebuggerExecutionState::break_state()).is_ok());
}

#[test]
fn refused_execution_keeps_the_state_and_interrupt_unblocks_it() {
    let mut executor = MockExecutor {
        responses: responses(&[("g", "continued execution")]),
        state: DebuggerExecutionState::from_raw(9),
    };
    assert!(executor.execute("g").is_err());
    assert_eq!(executor.state, DebuggerExecutionState::from_raw(9));
    let state = executor.interrupt().unwrap();
    assert_eq!(state, DebuggerExecutionState::break_state());
    let result = executor.execute("g").unwrap();
    assert_eq!(result.command, "g");
    assert_eq!(result.output, "continued execution");
    assert_eq!(result.state_before, DebuggerExecutionState::break_state());
    assert_eq!(result.state_after, DebuggerExecutionState::break_state());
}

#[test]
fn unscripted_commands_report_that_they_ran() {
    let mut executor = mock_executor(MockResponses::new()).unwrap();
    assert_eq!(executor.execute_ready("k").unwrap(), "mock-executed: k");
    assert_eq!(executor.execute("lm m nt").unwrap().output, "mock-executed: lm m nt");
}

#[test]
fn scripted_outputs_are_replaced_by_later_inserts() {
    let mut r = MockResponses::new();
    assert_eq!(r.insert("a".to_string(), "1".to_string()), None);
    assert_eq!(r.insert("b".to_string(), "2".to_string()), None);
    assert_eq!(r.insert("a".to_string(), "3".to_string()), Some("1".to_string()));
    assert_eq!(r.get("a"), Some(&"3".to_string()));
    assert_eq!(r.get("b"), Some(&"2".to_string()));
    assert_eq!(r.get("c"), None);
}

#[test]
fn engine_modes_need_the_engine() {
    for mode in [
        ExecutionMode::CurrentSession,
        ExecutionMode::AttachProcess { pid: 4, noninvasive: true },
        ExecutionMode::DumpFile { path: std::path::PathBuf::from("crash.dmp") },
    ] {
        assert!(matches!(build_executor(mode, false), Err(ExecutionError::WindowsOnly)));
    }
    match build_executor(ExecutionMode::AttachProcess { pid: 4, noninvasive: true }, true) {
        Ok(ExecutorChoice::Engine(ExecutionMode::AttachProcess { pid, noninvasive })) => {
            assert_eq!(pid, 4);
            assert!(noninvasive);
        }
        _ => panic!("the engine is available"),
    }
    assert!(matches!(
        build_executor(ExecutionMode::Mock { responses: MockResponses::new() }, true),
        Ok(ExecutorChoice::Mock(_))
    ));
}

#[test]
fn variants_arguments_and_refusals() {
    let catalog = fixture();
    let bp = catalog.lookup("bp").unwrap();
    assert_eq!(build_command(bp, Some("  BU "), Some("  main  ")).unwrap(), "bu main");
    assert_eq!(build_command(bp, Some("   "), Some("   ")).unwrap(), "bp");
    assert_eq!(build_command(bp, Some("bm"), None).unwrap(), "bm");
    assert_eq!(
        build_command(bp, Some(" bogus "), None),
        Err(ExecutionError::InvalidVariant {
            command: "bp, bu, bm (Set Breakpoint)".to_string(),
            variant: "bogus".to_string(),
        })
    );
    let brk = catalog.get_by_id("ctrl_c_break").unwrap();
    assert_eq!(
        build_command(brk, None, None),
        Err(ExecutionError::NonTextualCommand("CTRL+C (Break)".to_string()))
    );
}

#[test]
fn error_messages() {
    let cases = [
        (
            ExecutionError::NonTextualCommand("CTRL+C (Break)".to_string()),
            "command topic `CTRL+C (Break)` cannot be executed as plain debugger text",
        ),
        (
            ExecutionError::InvalidVariant { command: "bp".to_string(), variant: "bx".to_string() },
            "variant `bx` is not documented for `bp`",
        ),
        (ExecutionError::WorkerStopped, "dispatcher worker stopped"),
        (ExecutionError::Startup("no".to_string()), "debugger session failed to start: no"),
        (ExecutionError::Command("bad".to_string()), "command execution failed: bad"),
        (ExecutionError::InvalidCString, "string contains an embedded NUL byte"),
        (ExecutionError::WindowsOnly, "this execution mode is only available on Windows"),
    ];
    for (error, message) in cases {
        assert_eq!(error.message(), message);
    }
}

#[test]
fn waiting_for_a_break() {
    let ready = DebuggerExecutionState::break_state();
    assert!(matches!(next_wait_step(&ready, true), WaitStep::Ready));
    let running = DebuggerExecutionState::from_raw(EXECUTION_STATUS_GO);
    assert!(matches!(next_wait_step(&running, false), WaitStep::Poll));
    match next_wait_step(&running, true) {
        WaitStep::TimedOut(error) => assert_eq!(
            error.message(),
            "command execution failed: timed out waiting for debugger to become ready; last status was go (1)"
        ),
        _ => panic!("the deadline has passed"),
    }
}

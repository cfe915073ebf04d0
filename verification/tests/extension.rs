use windbg_mcp_rs::catalog::{Catalog, CatalogEntry, CatalogSection};
use windbg_mcp_rs::extension::{
    doc_entry, help_text, output_lines, parse_mcp_command, render_catalog_listing, render_doc,
    render_no_match, status_report, stop_report, McpCommandKind,
};
use windbg_mcp_rs::plugin_server::{
    is_addr_in_use, lowered_mentions_addr_in_use, mcp_url, resolve_bind_address,
    should_fall_back, PluginServerControl, PluginServerStatus, StartAction,
};

fn entry(id: &str, title: &str, summary: &str, tokens: &[&str]) -> CatalogEntry {
    CatalogEntry {
        id: id.to_string(),
        section: CatalogSection::Command,
        title: title.to_string(),
        summary: summary.to_string(),
        tokens: tokens.iter().map(|t| t.to_string()).collect(),
        supports_text_execution: true,
        user_mode_syntax: None,
        kernel_mode_syntax: None,
        documentation: format!("{title}\n\n{summary}\n"),
    }
}

fn fixture() -> Catalog {
    Catalog::from_entries(vec![
        entry("dt_display_type", "dt (Display Type)", "Displays a type.", &["dt"]),
        entry("k_display_stack", "k (Display Stack Backtrace)", "Displays the stack.", &["k", "kb"]),
    ])
}

fn parsed(args: &str) -> (McpCommandKind, String) {
    let c = parse_mcp_command(args);
    (c.kind, c.argument)
}

#[test]
fn mcp_arguments_are_parsed() {
    assert_eq!(parsed(""), (McpCommandKind::Help, String::new()));
    assert_eq!(parsed("  HeLp "), (McpCommandKind::Help, String::new()));
    assert_eq!(parsed("doc  dt "), (McpCommandKind::Doc, "dt".to_string()));
    assert_eq!(parsed("catalog"), (McpCommandKind::Catalog, String::new()));
    assert_eq!(parsed("catalog stack"), (McpCommandKind::Catalog, "stack".to_string()));
    assert_eq!(parsed("serve 127.0.0.1:6000"), (McpCommandKind::Serve, "127.0.0.1:6000".to_string()));
    assert_eq!(parsed("serve"), (McpCommandKind::Serve, String::new()));
    assert_eq!(parsed("STATUS"), (McpCommandKind::Status, String::new()));
    assert_eq!(parsed("stop"), (McpCommandKind::Stop, String::new()));
    assert_eq!(parsed("break"), (McpCommandKind::Interrupt, String::new()));
    assert_eq!(parsed("Interrupt"), (McpCommandKind::Interrupt, String::new()));
    assert_eq!(parsed("exec   lm  "), (McpCommandKind::Exec, "lm".to_string()));
    assert_eq!(parsed("k 10"), (McpCommandKind::Exec, "k 10".to_string()));
    assert_eq!(parsed("DOC dt"), (McpCommandKind::Exec, "DOC dt".to_string()));
    assert_eq!(parsed("docs"), (McpCommandKind::Exec, "docs".to_string()));
    assert_eq!(parsed("servexyz"), (McpCommandKind::Exec, "servexyz".to_string()));
    assert_eq!(parsed("catalogue"), (McpCommandKind::Exec, "catalogue".to_string()));
    assert_eq!(parsed("catalog\tstack  frames"), (McpCommandKind::Catalog, "stack  frames".to_string()));
    assert_eq!(parsed("serve\n0.0.0.0:1"), (McpCommandKind::Serve, "0.0.0.0:1".to_string()));
}

#[test]
fn help_lists_the_subcommands() {
    let help = help_text();
    assert!(help.starts_with("windbg-mcp commands:\n\n"));
    for sub in ["help", "serve", "status", "stop", "break", "catalog", "doc", "exec"] {
        assert!(help.contains(&format!("!mcp {sub}")));
    }
}

#[test]
fn doc_pages_and_misses() {
    let catalog = fixture();
    let e = doc_entry(&catalog, "kb").unwrap();
    assert_eq!(e.id, "k_display_stack");
    assert_eq!(
        render_doc(e),
        "k (Display Stack Backtrace)\n\ntokens: k, kb\nid: k_display_stack\n\nk (Display Stack Backtrace)\n\nDisplays the stack.\n"
    );
    assert_eq!(doc_entry(&catalog, "stack").unwrap().id, "k_display_stack");
    assert!(doc_entry(&catalog, "zzz").is_none());
    assert_eq!(render_no_match("zzz"), "No catalog entry matched `zzz`.\n");
}

#[test]
fn catalog_listings() {
    let catalog = fixture();
    assert_eq!(
        render_catalog_listing(&catalog, ""),
        "First 25 extracted debugger command topics:\n\n- dt (Display Type) | id=dt_display_type | tokens=dt\n  Displays a type.\n\n- k (Display Stack Backtrace) | id=k_display_stack | tokens=k, kb\n  Displays the stack.\n\n"
    );
    assert_eq!(
        render_catalog_listing(&catalog, "stack"),
        "Catalog matches for `stack`:\n\n- k (Display Stack Backtrace) | id=k_display_stack | tokens=k, kb\n  Displays the stack.\n\n"
    );
}

#[test]
fn engine_output_is_escaped_per_line() {
    assert!(output_lines("").is_empty());
    assert_eq!(output_lines("100% done\nnext"), vec!["100%% done\n", "next\n"]);
    assert_eq!(output_lines("a\r\n\nb\n"), vec!["a\n", "\n", "b\n"]);
}

#[test]
fn server_reports() {
    let status = PluginServerStatus { mcp_url: "http://127.0.0.1:50051/mcp".to_string() };
    assert_eq!(
        status_report(Some(&status)),
        "WinDbg MCP server is running at http://127.0.0.1:50051/mcp\n"
    );
    assert_eq!(status_report(None), "WinDbg MCP server is not running.\n");
    assert_eq!(
        stop_report(Some(&status)),
        "Stopped WinDbg MCP server at http://127.0.0.1:50051/mcp\n"
    );
    assert_eq!(stop_report(None), "WinDbg MCP server was not running.\n");
}

#[test]
fn bind_addresses_and_urls() {
    assert_eq!(resolve_bind_address(None), "127.0.0.1:50051");
    assert_eq!(resolve_bind_address(Some("   ")), "127.0.0.1:50051");
    assert_eq!(resolve_bind_address(Some(" 0.0.0.0:8080 ")), "0.0.0.0:8080");
    assert_eq!(mcp_url("127.0.0.1", 50051), "http://127.0.0.1:50051/mcp");
    assert_eq!(mcp_url("::1", 0), "http://::1:0/mcp");
}

#[test]
fn address_in_use_errors_are_recognised() {
    assert!(is_addr_in_use("Address already in use (os error 98)"));
    assert!(is_addr_in_use("ADDRESS IN USE"));
    assert!(is_addr_in_use("bind failed: EADDRINUSE"));
    assert!(is_addr_in_use("os error 10048"));
    assert!(!is_addr_in_use("permission denied"));
    assert!(!lowered_mentions_addr_in_use("ADDRESS IN USE"));
    assert!(should_fall_back(true, "Address already in use"));
    assert!(!should_fall_back(false, "Address already in use"));
    assert!(!should_fall_back(true, "connection refused"));
}

#[test]
fn server_control_records_the_running_server() {
    let mut control = PluginServerControl::new();
    assert!(control.status().is_none());
    match control.auto_start() {
        StartAction::Spawn { bind_address, fallback_on_busy } => {
            assert_eq!(bind_address, "127.0.0.1:50051");
            assert!(fallback_on_busy);
        }
        StartAction::AlreadyRunning(_) => panic!("nothing runs yet"),
    }
    match control.start(Some(" 127.0.0.1:6000 ")) {
        StartAction::Spawn { bind_address, fallback_on_busy } => {
            assert_eq!(bind_address, "127.0.0.1:6000");
            assert!(!fallback_on_busy);
        }
        StartAction::AlreadyRunning(_) => panic!("nothing runs yet"),
    }
    control.started(PluginServerStatus { mcp_url: "http://127.0.0.1:6000/mcp".to_string() });
    match control.start(None) {
        StartAction::AlreadyRunning(status) => {
            assert_eq!(status.mcp_url, "http://127.0.0.1:6000/mcp")
        }
        StartAction::Spawn { .. } => panic!("the server already runs"),
    }
    assert_eq!(control.status().unwrap().mcp_url, "http://127.0.0.1:6000/mcp");
    assert_eq!(control.stop().unwrap().mcp_url, "http://127.0.0.1:6000/mcp");
    assert!(control.status().is_none());
    assert!(control.stop().is_none());
}

use windbg_mcp_rs::catalog::{
    Catalog, CatalogEntry, CatalogResourceKind, CatalogSection, ToolRouting,
};
use windbg_mcp_rs::resources::{
    render_compact_command, render_full_command, render_guide, tool_route_label, GUIDE_URI,
};
use windbg_mcp_rs::server::{
    preview_line, read_resource_text, search_limit, shorten_preview, ServerTool, STATE_TOOL_ALIAS,
};

fn entry(
    id: &str,
    section: CatalogSection,
    title: &str,
    summary: &str,
    tokens: &[&str],
    text: bool,
    user: Option<&str>,
    kernel: Option<&str>,
    documentation: &str,
) -> CatalogEntry {
    CatalogEntry {
        id: id.to_string(),
        section,
        title: title.to_string(),
        summary: summary.to_string(),
        tokens: tokens.iter().map(|t| t.to_string()).collect(),
        supports_text_execution: text,
        user_mode_syntax: user.map(str::to_string),
        kernel_mode_syntax: kernel.map(str::to_string),
        documentation: documentation.to_string(),
    }
}

const BP_DOC: &str = "bp, bu, bm (Set Breakpoint)\n\nThe bp, bu, and bm commands set one or more software breakpoints.\nYou can combine locations, conditions, and options.\n\nUser-Mode\n\nbp[ID] [Options] [Address [Passes]] [\"CommandString\"]\nbu[ID] [Options] [Address [Passes]] [\"CommandString\"]\nbm [Options] SymbolPattern [Passes] [\"CommandString\"]\n\nKernel-Mode\n\nbp[ID] [Options] [Address [Passes]] [\"CommandString\"]\nbu[ID] [Options] [Address [Passes]] [\"CommandString\"]\n\nParameters\n\nID\nSpecifies a decimal number that identifies a breakpoint.\n";

/// A small catalog with the topics that the tests look at.
fn fixture() -> Catalog {
    Catalog::from_entries(vec![
        entry(
            "bp_bu_bm_set_breakpoint",
            CatalogSection::Command,
            "bp, bu, bm (Set Breakpoint)",
            "The bp, bu, and bm commands set one or more software breakpoints.",
            &["bp", "bu", "bm"],
            true,
            None,
            None,
            BP_DOC,
        ),
        entry(
            "dt_display_type",
            CatalogSection::Command,
            "dt (Display Type)",
            "The dt command displays information about a local variable, global variable or data type.",
            &["dt"],
            true,
            Some("dt [-DisplayOpts] [-SearchOpts] [module!]Name [[-SearchOpts] Field] [Address] [-l List]"),
            None,
            "dt (Display Type)\n\nThe dt command displays information about a local variable, global variable or data type.\n",
        ),
        entry(
            "g_go",
            CatalogSection::Command,
            "g (Go)",
            "The g command starts executing the given process or thread.",
            &["g"],
            true,
            Some("g[a] [= StartAddress] [BreakAddress ... [; BreakCommands]]"),
            Some("g [= StartAddress] [BreakAddress ... [; BreakCommands]]"),
            "g (Go)\n\nThe g command starts executing the given process or thread.\n",
        ),
        entry(
            "ctrl_c_break",
            CatalogSection::Command,
            "CTRL+C (Break)",
            "The CTRL+C key interrupts a running target.",
            &["ctrl+c"],
            false,
            None,
            None,
            "CTRL+C (Break)\n\nThe CTRL+C key interrupts a running target.\n",
        ),
        entry(
            "reload_reload_module",
            CatalogSection::MetaCommand,
            ".reload (Reload Module)",
            "The .reload command deletes all symbol information for the specified module and reloads these symbols as needed.",
            &[".reload"],
            true,
            Some(".reload [Options] [Module[=Address[,Size[,Timestamp]]]]"),
            None,
            ".reload (Reload Module)\n\nThe .reload command deletes symbol information.\n",
        ),
        entry(
            "f1_help",
            CatalogSection::Command,
            "F1 (Help)",
            "The F1 key opens the help.",
            &["F1"],
            false,
            None,
            None,
            "F1 (Help)\n\nThe F1 key opens the help.\n",
        ),
    ])
}

#[test]
fn catalog_contains_dt_entry() {
    let catalog = fixture();
    let dt = catalog.lookup("dt").expect("dt should exist in catalog");
    assert_eq!(dt.primary_token(), "dt");
    assert!(dt.documentation.contains("Display Type"));
}

#[test]
fn catalog_search_prefers_exact_token() {
    let catalog = fixture();
    let results = catalog.search("dt", None, 5);
    assert!(!results.is_empty());
    assert_eq!(results[0].primary_token(), "dt");
}

#[test]
fn catalog_search_handles_natural_language_query() {
    let catalog = fixture();
    let results = catalog.search("display type structure dt command", None, 5);
    assert!(!results.is_empty());
    assert_eq!(results[0].primary_token(), "dt");
}

#[test]
fn catalog_ids_are_normalized() {
    let catalog = fixture();
    let entry = catalog.lookup("dt").expect("dt should exist in catalog");
    assert_eq!(entry.id, "dt_display_type");
    assert!(!catalog.entries().iter().any(|entry| entry.id.contains("__")));
}

#[test]
fn catalog_exposes_full_resource_uri() {
    let catalog = fixture();
    let entry = catalog.lookup("dt").expect("dt should exist in catalog");
    assert_eq!(entry.full_resource_uri(), "windbg://command-full/dt_display_type");
}

#[test]
fn catalog_infers_syntax_block_from_documentation() {
    let catalog = fixture();
    let entry = catalog.lookup("bp").expect("bp entry should exist in catalog");
    let syntax = entry.syntax_block().expect("bp syntax should be inferred");
    assert!(syntax.contains("User-Mode"));
    assert!(syntax.contains("bp[ID] [Options] [Address [Passes]] [\"CommandString\"]"));
    assert!(syntax.contains("Kernel-Mode"));
    assert!(!syntax.contains("Parameters"));
}

#[test]
fn catalog_index_prefers_search_driven_resource_flow() {
    let index = fixture().render_index();
    assert!(index.contains("windbg_search_catalog"));
    assert!(index.contains("windbg://command/{id}"));
    assert!(index.contains("windbg://command-full/{id}"));
    assert!(!index.contains("dt_display_type"));
}

#[test]
fn catalog_exposes_resource_uri() {
    let catalog = fixture();
    let entry = catalog.lookup("dt").expect("dt entry must exist");
    assert_eq!(entry.resource_uri(), "windbg://command/dt_display_type");
}

#[test]
fn compact_resource_stays_small_and_points_to_full_doc() {
    let catalog = fixture();
    let entry = catalog.lookup("bp").expect("bp entry should exist");
    let resource = render_compact_command(entry);
    assert!(resource.contains("Syntax"));
    assert!(resource.contains("windbg://command-full/bp_bu_bm_set_breakpoint"));
    assert!(resource.contains("Next Step"));
}

#[test]
fn syntax_preview_uses_inferred_syntax_when_structured_syntax_is_missing() {
    let catalog = fixture();
    let entry = catalog.lookup("bp").expect("bp entry should exist");
    let line = preview_line(entry).expect("preview should exist");
    let preview = shorten_preview(&line);
    assert!(preview.contains("User-Mode"));
}

#[test]
fn interrupt_tool_is_exposed() {
    let tool = ServerTool::from_name("windbg_interrupt_target")
        .expect("interrupt tool should be listed");
    assert_eq!(tool.name(), "windbg_interrupt_target");
}

#[test]
fn command_tool_is_exposed() {
    let tool = ServerTool::from_name("windbg_execute_command")
        .expect("command tool should be listed");
    assert_eq!(tool.name(), "windbg_execute_command");
}

#[test]
fn state_tool_is_exposed() {
    let tool = ServerTool::from_name("windbg_get_state").expect("state tool should be listed");
    assert_eq!(tool.name(), "windbg_get_state");
}

// ---------------------------------------------------------------------------
// Further cases.
// ---------------------------------------------------------------------------

#[test]
fn unknown_tool_names_are_not_offered() {
    assert!(ServerTool::from_name("windbg_list_modules").is_none());
    assert!(ServerTool::from_name("WINDBG_GET_STATE").is_none());
    assert_eq!(ServerTool::from_name(STATE_TOOL_ALIAS), Some(ServerTool::GetState));
    assert_eq!(
        ServerTool::from_name("windbg_get_execution_state"),
        Some(ServerTool::GetState)
    );
    for tool in [
        ServerTool::ExecuteCommand,
        ServerTool::GetState,
        ServerTool::SearchCatalog,
        ServerTool::InterruptTarget,
    ] {
        assert_eq!(ServerTool::from_name(tool.name()), Some(tool));
    }
}

#[test]
fn lookup_prefers_id_then_unique_token() {
    let catalog = fixture();
    assert_eq!(catalog.lookup("g_go").unwrap().id, "g_go");
    assert_eq!(catalog.lookup("  BU ").unwrap().id, "bp_bu_bm_set_breakpoint");
    assert!(catalog.lookup("missing").is_none());
    assert_eq!(catalog.find_by_token(" .RELOAD ").len(), 1);
    assert!(catalog.find_by_token("bx").is_empty());
}

#[test]
fn ambiguous_tokens_are_not_looked_up() {
    let catalog = Catalog::from_entries(vec![
        entry("a_one", CatalogSection::Command, "a", "first", &["x"], true, None, None, ""),
        entry("a_two", CatalogSection::Command, "a", "second", &["X"], true, None, None, ""),
    ]);
    assert_eq!(catalog.find_by_token("x").len(), 2);
    assert!(catalog.lookup("x").is_none());
}

#[test]
fn get_by_id_finds_the_last_entry_with_that_id() {
    let catalog = Catalog::from_entries(vec![
        entry("same", CatalogSection::Command, "first", "", &["a"], true, None, None, ""),
        entry("same", CatalogSection::Command, "second", "", &["b"], true, None, None, ""),
    ]);
    assert_eq!(catalog.get_by_id("same").unwrap().title, "second");
}

#[test]
fn resource_uris_resolve_to_their_kind() {
    let catalog = fixture();
    let dt = catalog.get_by_id("dt_display_type").unwrap();
    let (kind, found) = catalog.resolve_resource_uri(&dt.resource_uri()).unwrap();
    assert_eq!(kind, CatalogResourceKind::Compact);
    assert_eq!(found.id, "dt_display_type");
    let (kind, found) = catalog.resolve_resource_uri(&dt.full_resource_uri()).unwrap();
    assert_eq!(kind, CatalogResourceKind::Full);
    assert_eq!(found.id, "dt_display_type");
    assert!(catalog.get_by_resource_uri("windbg://command-full/dt_display_type").is_none());
    assert!(catalog.resolve_resource_uri("windbg://command/missing").is_none());
    assert!(catalog.resolve_resource_uri("dt_display_type").is_none());
}

#[test]
fn blank_search_lists_the_section_in_catalog_order() {
    let catalog = fixture();
    let all: Vec<&str> = catalog.search("  ", None, 3).iter().map(|e| e.id.as_str()).collect();
    assert_eq!(all, vec!["bp_bu_bm_set_breakpoint", "dt_display_type", "g_go"]);
    let meta: Vec<&str> = catalog
        .search("", Some(CatalogSection::MetaCommand), 10)
        .iter()
        .map(|e| e.id.as_str())
        .collect();
    assert_eq!(meta, vec!["reload_reload_module"]);
}

#[test]
fn search_respects_section_and_limit() {
    let catalog = fixture();
    assert!(catalog.search("dt", Some(CatalogSection::MetaCommand), 5).is_empty());
    assert_eq!(catalog.search("the", None, 2).len(), 2);
    assert!(catalog.search("zzzz", None, 5).is_empty());
    assert!(catalog.search("dt", None, 0).is_empty());
}

#[test]
fn search_orders_by_score_then_id() {
    let catalog = Catalog::from_entries(vec![
        entry("b_entry", CatalogSection::Command, "t", "word", &["q"], true, None, None, ""),
        entry("a_entry", CatalogSection::Command, "t", "word", &["r"], true, None, None, ""),
        entry("c_entry", CatalogSection::Command, "word", "word", &["s"], true, None, None, ""),
    ]);
    let ids: Vec<&str> = catalog.search("word", None, 5).iter().map(|e| e.id.as_str()).collect();
    assert_eq!(ids, vec!["c_entry", "a_entry", "b_entry"]);
}

#[test]
fn routing_follows_text_execution_and_break_tokens() {
    let catalog = fixture();
    let dt = catalog.lookup("dt").unwrap();
    assert_eq!(dt.tool_routing(), ToolRouting::ExecuteCommand);
    assert_eq!(dt.recommended_tool(), Some("windbg_execute_command"));
    assert_eq!(dt.tool_routing_name(), "execute_command");
    let brk = catalog.get_by_id("ctrl_c_break").unwrap();
    assert_eq!(brk.tool_routing(), ToolRouting::InterruptTarget);
    assert_eq!(brk.recommended_tool(), Some("windbg_interrupt_target"));
    let f1 = catalog.get_by_id("f1_help").unwrap();
    assert_eq!(f1.tool_routing(), ToolRouting::DocumentationOnly);
    assert_eq!(f1.recommended_tool(), None);
    assert_eq!(tool_route_label(f1.tool_routing()), f1.tool_routing_name());
}

#[test]
fn entry_accessors() {
    let catalog = fixture();
    let bp = catalog.get_by_id("bp_bu_bm_set_breakpoint").unwrap();
    assert!(bp.variants_required());
    assert_eq!(
        bp.short_label(),
        "bp - The bp, bu, and bm commands set one or more software breakpoints."
    );
    assert_eq!(bp.syntax_preview(), None);
    let g = catalog.get_by_id("g_go").unwrap();
    assert!(!g.variants_required());
    assert_eq!(g.syntax_preview(), Some("g[a] [= StartAddress] [BreakAddress ... [; BreakCommands]]"));
    let none = entry("x", CatalogSection::Command, "x", "s", &[], true, None, None, "");
    assert_eq!(none.primary_token(), "");
    assert_eq!(none.short_label(), " - s");
}

#[test]
fn structured_syntax_joins_both_modes() {
    let catalog = fixture();
    let g = catalog.get_by_id("g_go").unwrap();
    assert_eq!(
        g.syntax_block().unwrap(),
        "User-Mode Syntax\ng[a] [= StartAddress] [BreakAddress ... [; BreakCommands]]\n\nKernel-Mode Syntax\ng [= StartAddress] [BreakAddress ... [; BreakCommands]]"
    );
    let kernel_only = entry("k", CatalogSection::Command, "k", "", &["k"], true, Some("  \n "), Some("\n  k one  \n\n\n  k two\n"), "");
    assert_eq!(kernel_only.syntax_block().unwrap(), "Kernel-Mode Syntax\nk one\nk two");
}

#[test]
fn inferred_syntax_stops_at_section_heading() {
    let catalog = fixture();
    let bp = catalog.get_by_id("bp_bu_bm_set_breakpoint").unwrap();
    assert_eq!(
        bp.syntax_block().unwrap(),
        "User-Mode\nbp[ID] [Options] [Address [Passes]] [\"CommandString\"]\nbu[ID] [Options] [Address [Passes]] [\"CommandString\"]\nbm [Options] SymbolPattern [Passes] [\"CommandString\"]\nKernel-Mode\nbp[ID] [Options] [Address [Passes]] [\"CommandString\"]\nbu[ID] [Options] [Address [Passes]] [\"CommandString\"]"
    );
    let f1 = catalog.get_by_id("f1_help").unwrap();
    assert_eq!(f1.syntax_block(), None);
    let crlf = entry("c", CatalogSection::Command, "c", "", &["c"], true, None, None, "Title\r\n\r\nAbout it.\r\n\r\nc [x]\r\nRemarks\r\nmore");
    assert_eq!(crlf.syntax_block().unwrap(), "c [x]");
}

#[test]
fn index_counts_commands_and_meta_commands() {
    let index = fixture().render_index();
    assert!(index.starts_with("WinDbg MCP guide\n\nRecommended flow:\n"));
    assert!(index.contains("Total entries: 6\nCommands: 5\nMeta-commands: 1\n"));
    assert!(index.ends_with(
        "Compact template: windbg://command/{id}\nFull template: windbg://command-full/{id}\n\n"
    ));
    let empty = Catalog::from_entries(Vec::new()).render_index();
    assert!(empty.contains("Total entries: 0\nCommands: 0\nMeta-commands: 0\n"));
}

#[test]
fn guide_ends_with_the_index() {
    let catalog = fixture();
    let guide = render_guide(&catalog);
    assert!(guide.starts_with("WinDbg MCP overview\n\n"));
    assert!(guide.contains("- Guide: windbg://guide/overview\n"));
    assert!(guide.ends_with(&catalog.render_index()));
}

#[test]
fn compact_card_and_full_page() {
    let catalog = fixture();
    let brk = catalog.get_by_id("ctrl_c_break").unwrap();
    let card = render_compact_command(brk);
    assert_eq!(
        card,
        "Title: CTRL+C (Break)\nCatalog Id: ctrl_c_break\nTokens: ctrl+c\nSummary: The CTRL+C key interrupts a running target.\nTool Route: interrupt_target\nRecommended Tool: windbg_interrupt_target\nFull Resource: windbg://command-full/ctrl_c_break\n\nNext Step\n---------\nThis topic maps to an engine-level break action. Use `windbg_interrupt_target` instead of `windbg_execute_command`.\n"
    );
    let page = render_full_command(brk);
    assert_eq!(page, format!("{card}\nDocumentation\n-------------\n{}", brk.documentation));
    let f1 = render_compact_command(catalog.get_by_id("f1_help").unwrap());
    assert!(f1.contains("Recommended Tool: documentation only\n"));
    let bp = render_compact_command(catalog.get_by_id("bp_bu_bm_set_breakpoint").unwrap());
    assert!(bp.contains("Tokens: bp, bu, bm\n"));
}

#[test]
fn resources_are_read_by_uri() {
    let catalog = fixture();
    assert_eq!(read_resource_text(&catalog, GUIDE_URI).unwrap(), render_guide(&catalog));
    assert_eq!(
        read_resource_text(&catalog, "windbg://catalog/index").unwrap(),
        render_guide(&catalog)
    );
    let dt = catalog.get_by_id("dt_display_type").unwrap();
    assert_eq!(
        read_resource_text(&catalog, "windbg://command/dt_display_type").unwrap(),
        render_compact_command(dt)
    );
    assert_eq!(
        read_resource_text(&catalog, "windbg://command-full/dt_display_type").unwrap(),
        render_full_command(dt)
    );
    assert!(read_resource_text(&catalog, "windbg://command/nope").is_none());
}

#[test]
fn search_limit_is_clamped() {
    assert_eq!(search_limit(None), 10);
    assert_eq!(search_limit(Some(0)), 1);
    assert_eq!(search_limit(Some(7)), 7);
    assert_eq!(search_limit(Some(100)), 100);
    assert_eq!(search_limit(Some(5000)), 100);
}

#[test]
fn previews_are_cut_at_157_bytes() {
    let short = "a".repeat(160);
    assert_eq!(shorten_preview(&short), short);
    let long = "b".repeat(200);
    assert_eq!(shorten_preview(&long), format!("{}...", "b".repeat(157)));
    let wide = format!("{}{}", "é".repeat(78), "x".repeat(10));
    assert_eq!(wide.len(), 166);
    assert_eq!(shorten_preview(&wide), format!("{}x...", "é".repeat(78)));
    let structured = entry("d", CatalogSection::Command, "d", "", &["d"], true, None, Some("\n   first line  \nsecond"), "");
    assert_eq!(preview_line(&structured).unwrap(), "Kernel-Mode Syntax");
    let inferred = entry("e", CatalogSection::Command, "e", "", &["e"], true, None, None, "E\n\nAbout e.\n\n   e [x]  \ne [y]\nNotes\n");
    assert_eq!(preview_line(&inferred).unwrap(), "e [x]");
    let nothing = entry("n", CatalogSection::Command, "n", "", &["n"], true, None, None, "N\n\nAbout n.\n");
    assert_eq!(preview_line(&nothing), None);
}

#[test]
fn raising_the_limit_only_appends() {
    let catalog = fixture();
    for query in ["the", "", "breakpoint command", "zzz"] {
        for limit in 0..8 {
            let a: Vec<&str> = catalog.search(query, None, limit).iter().map(|e| e.id.as_str()).collect();
            let b: Vec<&str> =
                catalog.search(query, None, limit + 1).iter().map(|e| e.id.as_str()).collect();
            assert!(a.len() <= limit && b.len() <= a.len() + 1);
            assert_eq!(a[..], b[..a.len()]);
            let mut distinct = a.clone();
            distinct.sort();
            distinct.dedup();
            assert_eq!(distinct.len(), a.len());
        }
    }
}

#[test]
fn cards_start_with_their_header() {
    let catalog = fixture();
    let g = catalog.get_by_id("g_go").unwrap();
    let card = render_compact_command(g);
    assert!(card.starts_with(
        "Title: g (Go)\nCatalog Id: g_go\nTokens: g\nSummary: The g command starts executing the given process or thread.\nTool Route: execute_command\n"
    ));
    assert!(card.contains(&format!("\nSyntax\n------\n{}\n", g.syntax_block().unwrap())));
    let brk = render_compact_command(catalog.get_by_id("ctrl_c_break").unwrap());
    assert!(!brk.contains("\nSyntax\n------\n"));
}

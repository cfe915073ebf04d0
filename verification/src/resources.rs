//! The text resources that the server publishes: the guide, the compact
//! command card and the full command page.
use vstd::prelude::*;

use crate::catalog::{
    Catalog, CatalogEntry, ToolRouting, FULL_RESOURCE_SCHEME, FULL_TEMPLATE_URI, TEMPLATE_URI,
    spec_recommended_tool, spec_render_index, spec_routing_name,
};
use crate::text::{
    contains, join, join_strings, matches_at, no_newline, push_chars, push_str,
};

verus! {

pub const GUIDE_URI: &'static str = "windbg://guide/overview";

/// The text of the guide that comes before the catalog index: the
/// low-context workflow and the key resources and tools. It is the same for
/// every catalog.
pub open spec fn guide_preamble() -> Seq<char> {
    "WinDbg MCP overview\n\n"@ + "Use resources to decide what to execute before calling tools.\n\n"@
        + "Low-context workflow\n"@ + "--------------------\n"@
        + "1. If the user request is not already a precise WinDbg command, call `windbg_search_catalog`.\n"@
        + "2. Read `windbg://command/{id}` for the best match. It keeps only the metadata and syntax needed to build the command string.\n"@
        + "3. Read `windbg://command-full/{id}` only when the compact card is not enough.\n"@
        + "4. Call `windbg_get_state` before execution.\n"@
        + "5. If the debugger is running or busy, call `windbg_interrupt_target`, then re-check state.\n"@
        + "6. Call `windbg_execute_command` only when the debugger is ready for commands.\n\n"@
        + "Key resources\n"@ + "-------------\n"@ + "- Guide: "@ + GUIDE_URI@ + "\n"@
        + "- Compact command card template: "@ + TEMPLATE_URI@ + "\n"@
        + "- Full command page template: "@ + FULL_TEMPLATE_URI@ + "\n\n"@ + "Key tools\n"@
        + "---------\n"@ + "- windbg_search_catalog\n"@ + "- windbg_get_state\n"@
        + "- windbg_interrupt_target\n"@ + "- windbg_execute_command\n\n"@
}

/// The guide: the preamble, then the catalog index.
pub open spec fn guide_text(index: Seq<char>) -> Seq<char> {
    guide_preamble() + index
}

/// The guide resource of a catalog.
pub fn render_guide(catalog: &Catalog) -> (res: String)
    ensures
        res@ == guide_text(spec_render_index(catalog@)),
{
    let mut output = String::new();
    push_str(&mut output, "WinDbg MCP overview\n\n");
    push_str(&mut output, "Use resources to decide what to execute before calling tools.\n\n");
    push_str(&mut output, "Low-context workflow\n");
    push_str(&mut output, "--------------------\n");
    push_str(
        &mut output,
        "1. If the user request is not already a precise WinDbg command, call `windbg_search_catalog`.\n",
    );
    push_str(
        &mut output,
        "2. Read `windbg://command/{id}` for the best match. It keeps only the metadata and syntax needed to build the command string.\n",
    );
    push_str(
        &mut output,
        "3. Read `windbg://command-full/{id}` only when the compact card is not enough.\n",
    );
    push_str(&mut output, "4. Call `windbg_get_state` before execution.\n");
    push_str(
        &mut output,
        "5. If the debugger is running or busy, call `windbg_interrupt_target`, then re-check state.\n",
    );
    push_str(
        &mut output,
        "6. Call `windbg_execute_command` only when the debugger is ready for commands.\n\n",
    );
    push_str(&mut output, "Key resources\n");
    push_str(&mut output, "-------------\n");
    push_str(&mut output, "- Guide: ");
    push_str(&mut output, GUIDE_URI);
    push_str(&mut output, "\n");
    push_str(&mut output, "- Compact command card template: ");
    push_str(&mut output, catalog.command_template_uri());
    push_str(&mut output, "\n");
    push_str(&mut output, "- Full command page template: ");
    push_str(&mut output, catalog.full_command_template_uri());
    push_str(&mut output, "\n\n");
    push_str(&mut output, "Key tools\n");
    push_str(&mut output, "---------\n");
    push_str(&mut output, "- windbg_search_catalog\n");
    push_str(&mut output, "- windbg_get_state\n");
    push_str(&mut output, "- windbg_interrupt_target\n");
    push_str(&mut output, "- windbg_execute_command\n\n");
    assert(output@ == guide_preamble());
    let index = catalog.render_index();
    push_str(&mut output, index.as_str());
    output
}

/// The line that names the recommended tool.
pub open spec fn recommended_line(tool: Option<Seq<char>>) -> Seq<char> {
    match tool {
        Some(t) => "Recommended Tool: "@ + t + "\n"@,
        None => "Recommended Tool: documentation only\n"@,
    }
}

/// The syntax section of a card, when the entry has a syntax block.
pub open spec fn syntax_section(syntax: Option<Seq<char>>) -> Seq<char> {
    match syntax {
        Some(s) => "\nSyntax\n------\n"@ + s + "\n"@,
        None => seq![],
    }
}

/// What an agent should do next with an entry of this routing.
pub open spec fn next_step_text(route: ToolRouting) -> Seq<char> {
    match route {
        ToolRouting::ExecuteCommand => "Build the final WinDbg command string from the syntax above, call `windbg_get_state`, interrupt if needed, and then call `windbg_execute_command`.\n"@,
        ToolRouting::InterruptTarget => "This topic maps to an engine-level break action. Use `windbg_interrupt_target` instead of `windbg_execute_command`.\n"@,
        ToolRouting::DocumentationOnly => "This topic is documentation-only in MCP because it describes a UI shortcut or non-text action.\n"@,
    }
}

/// The compact command card of an entry.
pub open spec fn compact_text(e: CatalogEntry) -> Seq<char> {
    "Title: "@ + e.title@ + "\n"@ + "Catalog Id: "@ + e.id@ + "\n"@ + "Tokens: "@ + join(
        e.token_views(),
        ", "@,
    ) + "\n"@ + "Summary: "@ + e.summary@ + "\n"@ + "Tool Route: "@ + spec_routing_name(
        e.spec_tool_routing(),
    ) + "\n"@ + recommended_line(spec_recommended_tool(e.spec_tool_routing())) + "Full Resource: "@
        + FULL_RESOURCE_SCHEME@ + e.id@ + "\n"@ + syntax_section(e.spec_syntax_block())
        + "\nNext Step\n---------\n"@ + next_step_text(e.spec_tool_routing())
}

/// The full command page of an entry: its card, then its documentation.
pub open spec fn full_text(e: CatalogEntry) -> Seq<char> {
    compact_text(e) + "\nDocumentation\n-------------\n"@ + e.documentation@
}

/// The label of a routing on a command card.
pub fn tool_route_label(route: ToolRouting) -> (res: &'static str)
    ensures
        res@ == spec_routing_name(route),
{
    match route {
        ToolRouting::ExecuteCommand => "execute_command",
        ToolRouting::InterruptTarget => "interrupt_target",
        ToolRouting::DocumentationOnly => "documentation_only",
    }
}

/// The compact command card: metadata, routing, the full resource and the
/// syntax an agent needs to build the command.
pub fn render_compact_command(entry: &CatalogEntry) -> (res: String)
    ensures
        res@ == compact_text(*entry),
{
    let mut output = String::new();
    push_str(&mut output, "Title: ");
    push_str(&mut output, entry.title.as_str());
    push_str(&mut output, "\n");
    push_str(&mut output, "Catalog Id: ");
    push_str(&mut output, entry.id.as_str());
    push_str(&mut output, "\n");
    push_str(&mut output, "Tokens: ");
    let tokens = join_strings(&entry.tokens, ", ");
    push_chars(&mut output, &tokens);
    push_str(&mut output, "\n");
    push_str(&mut output, "Summary: ");
    push_str(&mut output, entry.summary.as_str());
    push_str(&mut output, "\n");
    let route = entry.tool_routing();
    push_str(&mut output, "Tool Route: ");
    push_str(&mut output, tool_route_label(route));
    push_str(&mut output, "\n");
    let ghost before_tool = output@;
    match entry.recommended_tool() {
        Some(tool) => {
            push_str(&mut output, "Recommended Tool: ");
            push_str(&mut output, tool);
            push_str(&mut output, "\n");
            assert(output@ =~= before_tool + recommended_line(
                spec_recommended_tool(entry.spec_tool_routing()),
            ));
        },
        None => {
            push_str(&mut output, "Recommended Tool: documentation only\n");
        },
    }
    push_str(&mut output, "Full Resource: ");
    let full = entry.full_resource_uri();
    push_str(&mut output, full.as_str());
    push_str(&mut output, "\n");
    let ghost before_syntax = output@;
    match entry.syntax_block() {
        Some(syntax) => {
            push_str(&mut output, "\nSyntax\n------\n");
            push_str(&mut output, syntax.as_str());
            push_str(&mut output, "\n");
            assert(output@ =~= before_syntax + syntax_section(entry.spec_syntax_block()));
        },
        None => {
            assert(output@ =~= before_syntax + syntax_section(entry.spec_syntax_block()));
        },
    }
    push_str(&mut output, "\nNext Step\n---------\n");
    match route {
        ToolRouting::ExecuteCommand => push_str(
            &mut output,
            "Build the final WinDbg command string from the syntax above, call `windbg_get_state`, interrupt if needed, and then call `windbg_execute_command`.\n",
        ),
        ToolRouting::InterruptTarget => push_str(
            &mut output,
            "This topic maps to an engine-level break action. Use `windbg_interrupt_target` instead of `windbg_execute_command`.\n",
        ),
        ToolRouting::DocumentationOnly => push_str(
            &mut output,
            "This topic is documentation-only in MCP because it describes a UI shortcut or non-text action.\n",
        ),
    }
    assert(output@ =~= compact_text(*entry));
    output
}

/// The full command page: the compact card followed by the documentation.
pub fn render_full_command(entry: &CatalogEntry) -> (res: String)
    ensures
        res@ == full_text(*entry),
{
    let mut output = render_compact_command(entry);
    push_str(&mut output, "\nDocumentation\n-------------\n");
    push_str(&mut output, entry.documentation.as_str());
    output
}

/// The compact card of an entry points to its full page.
pub proof fn law_compact_card_points_to_full_page(e: CatalogEntry)
    ensures
        contains(compact_text(e), FULL_RESOURCE_SCHEME@ + e.id@),
{
    let uri = FULL_RESOURCE_SCHEME@ + e.id@;
    let before = "Title: "@ + e.title@ + "\n"@ + "Catalog Id: "@ + e.id@ + "\n"@ + "Tokens: "@ + join(
        e.token_views(),
        ", "@,
    ) + "\n"@ + "Summary: "@ + e.summary@ + "\n"@ + "Tool Route: "@ + spec_routing_name(
        e.spec_tool_routing(),
    ) + "\n"@ + recommended_line(spec_recommended_tool(e.spec_tool_routing())) + "Full Resource: "@;
    let after = "\n"@ + syntax_section(e.spec_syntax_block()) + "\nNext Step\n---------\n"@
        + next_step_text(e.spec_tool_routing());
    assert(compact_text(e) =~= before + uri + after);
    assert(matches_at(compact_text(e), uri, before.len() as int));
}

/// The full page of an entry is its compact card, then the documentation
/// heading, then the entry's whole documentation text, for every entry.
pub proof fn law_full_page_extends_compact_card(e: CatalogEntry)
    ensures
        full_text(e).take(compact_text(e).len() as int) == compact_text(e),
        full_text(e).len() == compact_text(e).len() + "\nDocumentation\n-------------\n"@.len()
            + e.documentation@.len(),
        full_text(e).skip(full_text(e).len() - e.documentation@.len()) == e.documentation@,
        full_text(e).subrange(
            compact_text(e).len() as int,
            full_text(e).len() - e.documentation@.len(),
        ) == "\nDocumentation\n-------------\n"@,
{
    let c = compact_text(e);
    let h = "\nDocumentation\n-------------\n"@;
    let d = e.documentation@;
    assert(full_text(e) == c + h + d);
    assert(full_text(e).take(c.len() as int) =~= c);
    assert(full_text(e).skip(full_text(e).len() - d.len()) =~= d);
    assert(full_text(e).subrange(c.len() as int, full_text(e).len() - d.len()) =~= h);
}

/// `x` occurs in any text that has it between two parts.
proof fn lemma_contains_middle(a: Seq<char>, x: Seq<char>, b: Seq<char>)
    ensures
        contains(a + x + b, x),
{
    assert(matches_at(a + x + b, x, a.len() as int));
}

/// The guide ends with the catalog index, and what comes before it is the
/// same for every catalog; it names the guide and both command templates.
pub proof fn law_guide_ends_with_index(entries: Seq<CatalogEntry>)
    ensures
        guide_text(spec_render_index(entries)) == guide_preamble() + spec_render_index(entries),
        contains(guide_preamble(), "- Guide: "@ + GUIDE_URI@ + "\n"@),
        contains(guide_preamble(), "- Compact command card template: "@ + TEMPLATE_URI@ + "\n"@),
        contains(guide_preamble(), "- Full command page template: "@ + FULL_TEMPLATE_URI@ + "\n\n"@),
{
    let head = "WinDbg MCP overview\n\n"@ + "Use resources to decide what to execute before calling tools.\n\n"@
        + "Low-context workflow\n"@ + "--------------------\n"@
        + "1. If the user request is not already a precise WinDbg command, call `windbg_search_catalog`.\n"@
        + "2. Read `windbg://command/{id}` for the best match. It keeps only the metadata and syntax needed to build the command string.\n"@
        + "3. Read `windbg://command-full/{id}` only when the compact card is not enough.\n"@
        + "4. Call `windbg_get_state` before execution.\n"@
        + "5. If the debugger is running or busy, call `windbg_interrupt_target`, then re-check state.\n"@
        + "6. Call `windbg_execute_command` only when the debugger is ready for commands.\n\n"@
        + "Key resources\n"@ + "-------------\n"@;
    let g = "- Guide: "@ + GUIDE_URI@ + "\n"@;
    let c = "- Compact command card template: "@ + TEMPLATE_URI@ + "\n"@;
    let f = "- Full command page template: "@ + FULL_TEMPLATE_URI@ + "\n\n"@;
    let tail = "Key tools\n"@ + "---------\n"@ + "- windbg_search_catalog\n"@ + "- windbg_get_state\n"@
        + "- windbg_interrupt_target\n"@ + "- windbg_execute_command\n\n"@;
    assert(guide_preamble() =~= head + g + (c + f + tail));
    lemma_contains_middle(head, g, c + f + tail);
    assert(guide_preamble() =~= (head + g) + c + (f + tail));
    lemma_contains_middle(head + g, c, f + tail);
    assert(guide_preamble() =~= (head + g + c) + f + tail);
    lemma_contains_middle(head + g + c, f, tail);
}

/// The first lines of a compact card: title, id, tokens, summary and route.
pub open spec fn card_header(e: CatalogEntry) -> Seq<char> {
    "Title: "@ + e.title@ + "\n"@ + "Catalog Id: "@ + e.id@ + "\n"@ + "Tokens: "@ + join(
        e.token_views(),
        ", "@,
    ) + "\n"@ + "Summary: "@ + e.summary@ + "\n"@ + "Tool Route: "@ + spec_routing_name(
        e.spec_tool_routing(),
    ) + "\n"@
}

/// A compact card starts with its header. It holds a syntax section with
/// the entry's syntax block when the entry has one; without one, the card is
/// the header, the recommended tool, the full resource and the next step,
/// with no syntax section.
pub proof fn law_compact_card_layout(e: CatalogEntry)
    ensures
        compact_text(e).take(card_header(e).len() as int) == card_header(e),
        e.spec_syntax_block() matches Some(s) ==> contains(
            compact_text(e),
            "\nSyntax\n------\n"@ + s + "\n"@,
        ),
        e.spec_syntax_block() is None ==> compact_text(e) == card_header(e) + recommended_line(
            spec_recommended_tool(e.spec_tool_routing()),
        ) + "Full Resource: "@ + FULL_RESOURCE_SCHEME@ + e.id@ + "\n"@ + "\nNext Step\n---------\n"@
            + next_step_text(e.spec_tool_routing()),
{
    let h = card_header(e);
    let mid = recommended_line(spec_recommended_tool(e.spec_tool_routing())) + "Full Resource: "@
        + FULL_RESOURCE_SCHEME@ + e.id@ + "\n"@;
    let tail = "\nNext Step\n---------\n"@ + next_step_text(e.spec_tool_routing());
    let sec = syntax_section(e.spec_syntax_block());
    assert(compact_text(e) =~= h + (mid + sec + tail));
    assert(compact_text(e).take(h.len() as int) =~= h);
    if let Some(s) = e.spec_syntax_block() {
        assert(compact_text(e) =~= (h + mid) + ("\nSyntax\n------\n"@ + s + "\n"@) + tail);
        lemma_contains_middle(h + mid, "\nSyntax\n------\n"@ + s + "\n"@, tail);
    } else {
        assert(compact_text(e) =~= h + mid + tail);
    }
}

/// A line break followed by `Sy`: where a `Syntax` heading would start.
pub open spec fn heading_start() -> Seq<char> {
    seq!['\n', 'S', 'y']
}

/// The text starts with `Sy`.
pub open spec fn starts_sy(s: Seq<char>) -> bool {
    s.len() >= 2 && s[0] == 'S' && s[1] == 'y'
}

/// A line without `Sy` after its break: a text with no line break, then one.
proof fn lemma_single_line(x: Seq<char>)
    requires
        no_newline(x),
    ensures
        !contains(x + seq!['\n'], heading_start()),
{
    let s = x + seq!['\n'];
    if contains(s, heading_start()) {
        let i = choose|i: int| matches_at(s, heading_start(), i);
        assert(s[i] == heading_start()[0]);
        if i < x.len() {
            assert(s[i] == x[i]);
        }
        assert(false);
    }
}

/// Two texts without `\nSy`, the first ending with a line break and the
/// second not starting with `Sy`, make a text without `\nSy`.
proof fn lemma_join_lines(a: Seq<char>, b: Seq<char>)
    requires
        a.len() > 0,
        a.last() == '\n',
        !contains(a, heading_start()),
        !contains(b, heading_start()),
        !starts_sy(b),
    ensures
        !contains(a + b, heading_start()),
{
    let s = a + b;
    let p = heading_start();
    if contains(s, p) {
        let i = choose|i: int| matches_at(s, p, i);
        assert(s[i] == p[0] && s[i + 1] == p[1] && s[i + 2] == p[2]);
        if i + 3 <= a.len() {
            assert(matches_at(a, p, i)) by {
                assert forall|k: int| 0 <= k < p.len() implies a[i + k] == p[k] by {
                    assert(s[i + k] == a[i + k]);
                }
            }
        } else if i >= a.len() {
            assert(matches_at(b, p, i - a.len())) by {
                assert forall|k: int| 0 <= k < p.len() implies b[i - a.len() + k] == p[k] by {
                    assert(s[i + k] == b[i - a.len() + k]);
                }
            }
        } else if i == a.len() - 1 {
            assert(s[i + 1] == b[0] && s[i + 2] == b[1]);
        } else {
            assert(s[i + 1] == a[a.len() - 1]);
        }
        assert(false);
    }
}

/// A line `lit + v` followed by `rest`, where the literal part does not
/// start with `Sy` and neither part holds a line break.
proof fn lemma_line_then(lit: Seq<char>, v: Seq<char>, rest: Seq<char>)
    requires
        lit.len() >= 2,
        !(lit[0] == 'S' && lit[1] == 'y'),
        no_newline(lit),
        no_newline(v),
        !contains(rest, heading_start()),
        !starts_sy(rest),
    ensures
        !contains(lit + v + seq!['\n'] + rest, heading_start()),
        !starts_sy(lit + v + seq!['\n'] + rest),
{
    let x = lit + v;
    assert(no_newline(x)) by {
        assert forall|j: int| 0 <= j < x.len() implies x[j] != '\n' by {
            if j < lit.len() {
                assert(x[j] == lit[j]);
            } else {
                assert(x[j] == v[j - lit.len()]);
            }
        }
    }
    lemma_single_line(x);
    lemma_join_lines(x + seq!['\n'], rest);
    assert((lit + v + seq!['\n'] + rest)[0] == lit[0]);
    assert((lit + v + seq!['\n'] + rest)[1] == lit[1]);
}

/// Parts and separator without line breaks join without line breaks.
proof fn lemma_join_no_newline(parts: Seq<Seq<char>>, sep: Seq<char>)
    requires
        no_newline(sep),
        forall|i: int| 0 <= i < parts.len() ==> no_newline(#[trigger] parts[i]),
    ensures
        no_newline(join(parts, sep)),
    decreases parts.len(),
{
    if parts.len() > 1 {
        let init = parts.drop_last();
        assert forall|i: int| 0 <= i < init.len() implies no_newline(#[trigger] init[i]) by {
            assert(init[i] == parts[i]);
        }
        lemma_join_no_newline(init, sep);
        let j = join(init, sep);
        let l = parts.last();
        assert(no_newline(l));
        let r = j + sep + l;
        assert forall|k: int| 0 <= k < r.len() implies r[k] != '\n' by {
            if k < j.len() {
                assert(r[k] == j[k]);
            } else if k < j.len() + sep.len() {
                assert(r[k] == sep[k - j.len()]);
            } else {
                assert(r[k] == l[k - j.len() - sep.len()]);
            }
        }
    } else if parts.len() == 1 {
        assert(no_newline(parts[0]));
    }
}

/// A literal that ends with its only line break.
proof fn lemma_literal_line(t: Seq<char>)
    requires
        t.len() > 0,
        t.last() == '\n',
        no_newline(t.drop_last()),
    ensures
        !contains(t, heading_start()),
{
    lemma_single_line(t.drop_last());
    assert(t.drop_last() + seq!['\n'] =~= t);
}

/// The next-step section of a card holds no `\nSy` and does not start
/// with `Sy`.
proof fn lemma_next_step_clean(route: ToolRouting)
    ensures
        !contains("\nNext Step\n---------\n"@ + next_step_text(route), heading_start()),
        !starts_sy("\nNext Step\n---------\n"@ + next_step_text(route)),
{
    let head = "\nNext Step\n---------\n"@;
    reveal_strlit("\nNext Step\n---------\n");
    let advice = next_step_text(route);
    match route {
        ToolRouting::ExecuteCommand => {
            reveal_strlit(
                "Build the final WinDbg command string from the syntax above, call `windbg_get_state`, interrupt if needed, and then call `windbg_execute_command`.\n",
            );
        },
        ToolRouting::InterruptTarget => {
            reveal_strlit(
                "This topic maps to an engine-level break action. Use `windbg_interrupt_target` instead of `windbg_execute_command`.\n",
            );
        },
        ToolRouting::DocumentationOnly => {
            reveal_strlit(
                "This topic is documentation-only in MCP because it describes a UI shortcut or non-text action.\n",
            );
        },
    }
    assert(no_newline(advice.drop_last()));
    lemma_literal_line(advice);
    assert(head =~= head.drop_last() + seq!['\n']);
    assert(!contains(head, heading_start())) by {
        if contains(head, heading_start()) {
            let i = choose|i: int| matches_at(head, heading_start(), i);
            assert(head[i] == '\n');
            assert(head[i + 1] == 'S');
            assert(false);
        }
    }
    lemma_join_lines(head, advice);
    assert((head + advice)[0] == '\n');
}

/// The recommended-tool line followed by a clean rest is clean.
proof fn lemma_recommended_clean(route: ToolRouting, rest: Seq<char>)
    requires
        !contains(rest, heading_start()),
        !starts_sy(rest),
    ensures
        !contains(recommended_line(spec_recommended_tool(route)) + rest, heading_start()),
        !starts_sy(recommended_line(spec_recommended_tool(route)) + rest),
{
    reveal_strlit("Recommended Tool: ");
    reveal_strlit("\n");
    let nl = seq!['\n'];
    assert("\n"@ =~= nl);
    match spec_recommended_tool(route) {
        Some(t) => {
            reveal_strlit("windbg_execute_command");
            reveal_strlit("windbg_interrupt_target");
            assert(no_newline(t));
            lemma_line_then("Recommended Tool: "@, t, rest);
            assert(recommended_line(Some(t)) + rest =~= "Recommended Tool: "@ + t + nl + rest);
        },
        None => {
            let lit = "Recommended Tool: documentation only\n"@;
            reveal_strlit("Recommended Tool: documentation only\n");
            assert(no_newline(lit.drop_last()));
            lemma_literal_line(lit);
            lemma_join_lines(lit, rest);
            assert((lit + rest)[0] == 'R');
        },
    }
}

/// The lines from `Tool Route:` on, with a clean rest, are clean.
proof fn lemma_route_full_clean(e: CatalogEntry)
    requires
        no_newline(e.id@),
    ensures
        ({
            let route = e.spec_tool_routing();
            let rest = "Tool Route: "@ + spec_routing_name(route) + "\n"@ + recommended_line(
                spec_recommended_tool(route),
            ) + "Full Resource: "@ + FULL_RESOURCE_SCHEME@ + e.id@ + "\n"@
                + "\nNext Step\n---------\n"@ + next_step_text(route);
            !contains(rest, heading_start()) && !starts_sy(rest)
        }),
{
    let route = e.spec_tool_routing();
    reveal_strlit("\n");
    let nl = seq!['\n'];
    assert("\n"@ =~= nl);
    lemma_next_step_clean(route);
    let tail = "\nNext Step\n---------\n"@ + next_step_text(route);
    reveal_strlit("Full Resource: ");
    reveal_strlit("windbg://command-full/");
    let v = FULL_RESOURCE_SCHEME@ + e.id@;
    assert(no_newline(v)) by {
        assert forall|j: int| 0 <= j < v.len() implies v[j] != '\n' by {
            if j >= FULL_RESOURCE_SCHEME@.len() {
                assert(v[j] == e.id@[j - FULL_RESOURCE_SCHEME@.len()]);
            }
        }
    }
    lemma_line_then("Full Resource: "@, v, tail);
    let f = "Full Resource: "@ + v + nl + tail;
    lemma_recommended_clean(route, f);
    let r = recommended_line(spec_recommended_tool(route)) + f;
    reveal_strlit("Tool Route: ");
    reveal_strlit("execute_command");
    reveal_strlit("interrupt_target");
    reveal_strlit("documentation_only");
    assert(no_newline(spec_routing_name(route)));
    lemma_line_then("Tool Route: "@, spec_routing_name(route), r);
    let rest = "Tool Route: "@ + spec_routing_name(route) + "\n"@ + recommended_line(
        spec_recommended_tool(route),
    ) + "Full Resource: "@ + FULL_RESOURCE_SCHEME@ + e.id@ + "\n"@ + "\nNext Step\n---------\n"@
        + next_step_text(route);
    assert(rest =~= "Tool Route: "@ + spec_routing_name(route) + nl + r);
    assert(!contains(rest, heading_start()));
    assert(!starts_sy(rest));
}

/// The title, id, tokens and summary lines, followed by a clean rest, are
/// clean.
proof fn lemma_header_clean(e: CatalogEntry, rest: Seq<char>)
    requires
        no_newline(e.title@),
        no_newline(e.id@),
        no_newline(e.summary@),
        forall|i: int| 0 <= i < e.tokens@.len() ==> no_newline(#[trigger] e.tokens@[i]@),
        !contains(rest, heading_start()),
        !starts_sy(rest),
    ensures
        !contains(
            "Title: "@ + e.title@ + "\n"@ + "Catalog Id: "@ + e.id@ + "\n"@ + "Tokens: "@ + join(
                e.token_views(),
                ", "@,
            ) + "\n"@ + "Summary: "@ + e.summary@ + "\n"@ + rest,
            heading_start(),
        ),
{
    reveal_strlit("\n");
    let nl = seq!['\n'];
    assert("\n"@ =~= nl);
    reveal_strlit("Title: ");
    reveal_strlit("Catalog Id: ");
    reveal_strlit("Tokens: ");
    reveal_strlit("Summary: ");
    reveal_strlit(", ");
    lemma_line_then("Summary: "@, e.summary@, rest);
    let l4 = "Summary: "@ + e.summary@ + nl + rest;
    assert forall|i: int| 0 <= i < e.token_views().len() implies no_newline(
        #[trigger] e.token_views()[i],
    ) by {
        assert(e.token_views()[i] == e.tokens@[i]@);
    }
    lemma_join_no_newline(e.token_views(), ", "@);
    let toks = join(e.token_views(), ", "@);
    lemma_line_then("Tokens: "@, toks, l4);
    let l3 = "Tokens: "@ + toks + nl + l4;
    lemma_line_then("Catalog Id: "@, e.id@, l3);
    let l2 = "Catalog Id: "@ + e.id@ + nl + l3;
    lemma_line_then("Title: "@, e.title@, l2);
    let l1 = "Title: "@ + e.title@ + nl + l2;
    assert("Title: "@ + e.title@ + "\n"@ + "Catalog Id: "@ + e.id@ + "\n"@ + "Tokens: "@ + toks
        + "\n"@ + "Summary: "@ + e.summary@ + "\n"@ + rest =~= l1);
}

/// The compact card of an entry holds a `Syntax` heading exactly when the
/// entry has a syntax block, as long as its title, id, summary and tokens
/// hold no line break.
pub proof fn law_compact_card_syntax_heading(e: CatalogEntry)
    requires
        no_newline(e.title@),
        no_newline(e.id@),
        no_newline(e.summary@),
        forall|i: int| 0 <= i < e.tokens@.len() ==> no_newline(#[trigger] e.tokens@[i]@),
    ensures
        contains(compact_text(e), "\nSyntax\n------\n"@) <==> e.spec_syntax_block() is Some,
{
    let marker = "\nSyntax\n------\n"@;
    reveal_strlit("\nSyntax\n------\n");
    if let Some(sb) = e.spec_syntax_block() {
        law_compact_card_layout(e);
        let longer = marker + sb + "\n"@;
        let i = choose|i: int| matches_at(compact_text(e), longer, i);
        assert(matches_at(compact_text(e), marker, i)) by {
            assert forall|k: int| 0 <= k < marker.len() implies compact_text(e)[i + k]
                == marker[k] by {
                assert(longer[k] == marker[k]);
            }
        }
    } else {
        let route = e.spec_tool_routing();
        lemma_route_full_clean(e);
        let l5 = "Tool Route: "@ + spec_routing_name(route) + "\n"@ + recommended_line(
            spec_recommended_tool(route),
        ) + "Full Resource: "@ + FULL_RESOURCE_SCHEME@ + e.id@ + "\n"@ + "\nNext Step\n---------\n"@
            + next_step_text(route);
        lemma_header_clean(e, l5);
        let l1 = "Title: "@ + e.title@ + "\n"@ + "Catalog Id: "@ + e.id@ + "\n"@ + "Tokens: "@ + join(
            e.token_views(),
            ", "@,
        ) + "\n"@ + "Summary: "@ + e.summary@ + "\n"@ + l5;
        assert(syntax_section(e.spec_syntax_block()) =~= Seq::<char>::empty());
        assert(compact_text(e) =~= l1);
        if contains(compact_text(e), marker) {
            let i = choose|i: int| matches_at(compact_text(e), marker, i);
            assert(matches_at(compact_text(e), heading_start(), i)) by {
                assert forall|k: int| 0 <= k < heading_start().len() implies compact_text(e)[i
                    + k] == heading_start()[k] by {
                    assert(marker[k] == heading_start()[k]);
                }
            }
        }
    }
}

} // verus!

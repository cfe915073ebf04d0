//! The decisions behind the MCP server: which tool a name denotes, how many
//! search results a request asks for, the one-line syntax preview of a
//! search result, and the text of a resource URI.
use vstd::prelude::*;

use crate::catalog::{
    Catalog, CatalogEntry, CatalogResourceKind, INDEX_URI, opt_string_view, spec_render_index,
    spec_resolve,
};
use crate::resources::{
    GUIDE_URI, compact_text, full_text, guide_text, render_compact_command, render_full_command,
    render_guide,
};
use crate::syntax::{skip_lines, skip_lines_exec};
use crate::text::{
    chars_of, lines, push_str, same_text, split_lines, string_of, trim, trim_chars,
};
use vstd::string::StringSliceAdditionalSpecFns;
use vstd::utf8::{decode_utf8, encode_utf8, encode_utf8_decode_utf8, is_char_boundary};

verus! {

/// The tools that the server offers.
#[derive(Debug, Clone, Copy, PartialEq, Eq, Structural)]
pub enum ServerTool {
    ExecuteCommand,
    GetState,
    SearchCatalog,
    InterruptTarget,
}

/// The name under which a tool is offered.
pub open spec fn tool_name(t: ServerTool) -> Seq<char> {
    match t {
        ServerTool::ExecuteCommand => "windbg_execute_command"@,
        ServerTool::GetState => "windbg_get_state"@,
        ServerTool::SearchCatalog => "windbg_search_catalog"@,
        ServerTool::InterruptTarget => "windbg_interrupt_target"@,
    }
}

/// The second name under which the state tool is offered.
pub const STATE_TOOL_ALIAS: &'static str = "windbg_get_execution_state";

/// `name` denotes the tool `t`: its name, or for the state tool also
/// `windbg_get_execution_state`.
pub open spec fn names_tool(t: ServerTool, name: Seq<char>) -> bool {
    name == tool_name(t) || (t == ServerTool::GetState && name == STATE_TOOL_ALIAS@)
}

impl ServerTool {
    /// The name under which the tool is offered.
    pub fn name(&self) -> (res: &'static str)
        ensures
            res@ == tool_name(*self),
    {
        match self {
            ServerTool::ExecuteCommand => "windbg_execute_command",
            ServerTool::GetState => "windbg_get_state",
            ServerTool::SearchCatalog => "windbg_search_catalog",
            ServerTool::InterruptTarget => "windbg_interrupt_target",
        }
    }

    /// The tool offered under `name`, if any.
    pub fn from_name(name: &str) -> (res: Option<ServerTool>)
        ensures
            match res {
                Some(t) => names_tool(t, name@),
                None => forall|t: ServerTool| !names_tool(t, name@),
            },
    {
        if same_text(name, "windbg_execute_command") {
            Some(ServerTool::ExecuteCommand)
        } else if same_text(name, "windbg_get_state") || same_text(name, STATE_TOOL_ALIAS) {
            Some(ServerTool::GetState)
        } else if same_text(name, "windbg_search_catalog") {
            Some(ServerTool::SearchCatalog)
        } else if same_text(name, "windbg_interrupt_target") {
            Some(ServerTool::InterruptTarget)
        } else {
            None
        }
    }
}

/// The number of results a search request gets: the requested limit, 10
/// when none is given, brought into `1..=100`.
pub open spec fn spec_search_limit(limit: Option<u32>) -> int {
    let l = match limit {
        Some(v) => v as int,
        None => 10int,
    };
    if l < 1 {
        1
    } else if l > 100 {
        100
    } else {
        l
    }
}

/// The number of results a search request gets.
pub fn search_limit(limit: Option<u32>) -> (res: usize)
    ensures
        res as int == spec_search_limit(limit),
{
    let l: u32 = match limit {
        Some(v) => v,
        None => 10,
    };
    if l < 1 {
        1
    } else if l > 100 {
        100
    } else {
        l as usize
    }
}

/// The line a search result previews of a syntax block: the block trimmed,
/// nothing when that is empty, else its first non-blank line, trimmed.
pub open spec fn spec_preview_line(syntax: Option<Seq<char>>) -> Option<Seq<char>> {
    match syntax {
        Some(s) => {
            let t = trim(s);
            if t.len() == 0 {
                None
            } else {
                let ls = lines(t);
                let k = skip_lines(ls, 0, true);
                Some(
                    trim(
                        if k < ls.len() {
                            ls[k]
                        } else {
                            t
                        },
                    ),
                )
            }
        },
        None => None,
    }
}

/// The first line of the entry's syntax block.
pub fn preview_line(entry: &CatalogEntry) -> (res: Option<String>)
    ensures
        opt_string_view(res) == spec_preview_line(entry.spec_syntax_block()),
{
    let syntax = match entry.syntax_block() {
        Some(s) => s,
        None => return None,
    };
    let t = trim_chars(&chars_of(syntax.as_str()));
    if t.len() == 0 {
        return None;
    }
    let ls = split_lines(&t);
    let k = skip_lines_exec(&ls, 0, true);
    let line = if k < ls.len() {
        ls[k].clone()
    } else {
        t
    };
    Some(string_of(&trim_chars(&line)))
}

/// The UTF-8 length of a text in bytes.
pub open spec fn byte_len(s: Seq<char>) -> int {
    encode_utf8(s).len() as int
}

/// A preview that fits: lines of at most 160 bytes as they are, longer ones
/// cut after 157 bytes and marked with `...`.
pub open spec fn spec_shortened(line: Seq<char>) -> Seq<char> {
    if byte_len(line) <= 160 {
        line
    } else {
        decode_utf8(encode_utf8(line).subrange(0, 157)) + "..."@
    }
}

/// Shortens a preview line to at most 160 bytes. A longer line must not
/// have a character that straddles byte 157.
pub fn shorten_preview(line: &str) -> (res: String)
    requires
        byte_len(line@) <= usize::MAX,
        byte_len(line@) <= 160 || is_char_boundary(encode_utf8(line@), 157),
    ensures
        res@ == spec_shortened(line@),
{
    assert(line.spec_bytes() == encode_utf8(line@));
    if line.len() <= 160 {
        line.to_owned()
    } else {
        let (head, _tail) = line.split_at(157);
        proof {
            assert(head.spec_bytes() == encode_utf8(head@));
            assert(encode_utf8(head@) =~= encode_utf8(line@).subrange(0, 157));
            encode_utf8_decode_utf8(head@);
        }
        let mut s = head.to_owned();
        push_str(&mut s, "...");
        s
    }
}

/// The text that a resource URI names: the guide for the guide and index
/// URIs, else the compact card or the full page of the entry it names.
pub open spec fn spec_read_resource(entries: Seq<CatalogEntry>, uri: Seq<char>) -> Option<
    Seq<char>,
> {
    if uri == GUIDE_URI@ || uri == INDEX_URI@ {
        Some(guide_text(spec_render_index(entries)))
    } else {
        match spec_resolve(entries, uri) {
            Some((CatalogResourceKind::Compact, e)) => Some(compact_text(e)),
            Some((CatalogResourceKind::Full, e)) => Some(full_text(e)),
            None => None,
        }
    }
}

/// The text of a resource, or `None` for an unknown URI.
pub fn read_resource_text(catalog: &Catalog, uri: &str) -> (res: Option<String>)
    ensures
        opt_string_view(res) == spec_read_resource(catalog@, uri@),
{
    if same_text(uri, GUIDE_URI) || same_text(uri, catalog.command_index_uri()) {
        return Some(render_guide(catalog));
    }
    match catalog.resolve_resource_uri(uri) {
        Some((CatalogResourceKind::Compact, entry)) => Some(render_compact_command(entry)),
        Some((CatalogResourceKind::Full, entry)) => Some(render_full_command(entry)),
        None => None,
    }
}

/// No name denotes two tools, so every tool is found again by each of its
/// names; `windbg_get_execution_state` denotes the state tool.
pub proof fn law_tool_names_distinct(t: ServerTool, u: ServerTool, name: Seq<char>)
    ensures
        names_tool(t, name) && names_tool(u, name) ==> t == u,
        names_tool(t, tool_name(t)),
        names_tool(t, STATE_TOOL_ALIAS@) <==> t == ServerTool::GetState,
{
    reveal_strlit("windbg_execute_command");
    reveal_strlit("windbg_get_state");
    reveal_strlit("windbg_search_catalog");
    reveal_strlit("windbg_interrupt_target");
    reveal_strlit("windbg_get_execution_state");
    assert(STATE_TOOL_ALIAS@.len() == 26);
    assert(tool_name(ServerTool::ExecuteCommand).len() == 22);
    assert(tool_name(ServerTool::GetState).len() == 16);
    assert(tool_name(ServerTool::SearchCatalog).len() == 21);
    assert(tool_name(ServerTool::InterruptTarget).len() == 23);
}

} // verus!

//! The `!mcp` debugger command: how its argument text is understood, and
//! the texts it prints. Talking to the debugger engine is left to the host.
use vstd::prelude::*;

use crate::catalog::{Catalog, CatalogEntry, lists_entries, opt_entry, spec_lookup};
use crate::plugin_server::PluginServerStatus;
use crate::search::is_ranked_search;
use crate::syntax::opt_chars_view;
use crate::text::{
    chars_of, eq_ignore_case, eq_ignore_case_chars, is_whitespace, is_ws, join, join_strings, lines,
    push_char, push_chars, push_str, split_lines, string_of, string_views, strip_prefix,
    strip_prefix_chars, trim, trim_chars, views,
};

verus! {

/// What an `!mcp` invocation asks for.
#[derive(Debug, Clone, Copy, PartialEq, Eq, Structural)]
pub enum McpCommandKind {
    Help,
    Doc,
    Catalog,
    Serve,
    Status,
    Stop,
    Interrupt,
    Exec,
}

/// An `!mcp` invocation: the subcommand and its argument text.
#[derive(Debug, Clone)]
pub struct McpCommand {
    pub kind: McpCommandKind,
    pub argument: String,
}

/// What follows the word `kw` at the start of `t`, when `t` starts with that
/// word as a whole: the text ends after it, or whitespace follows it.
pub open spec fn after_word(t: Seq<char>, kw: Seq<char>) -> Option<Seq<char>> {
    match strip_prefix(t, kw) {
        Some(r) => if r.len() == 0 || is_ws(r[0]) {
            Some(r)
        } else {
            None
        },
        None => None,
    }
}

/// How a trimmed argument text is understood: `help` (also for nothing),
/// `doc <query>`, `catalog [query]`, `serve [address]`, `status`, `stop`,
/// `break` or `interrupt`, `exec <command>`; anything else, including a first
/// word that merely starts with a subcommand's name, is a debugger command to
/// execute. The keywords without arguments are matched up to ASCII case, the
/// others exactly.
pub open spec fn spec_parse(t: Seq<char>) -> (McpCommandKind, Seq<char>) {
    if t.len() == 0 || eq_ignore_case(t, "help"@) {
        (McpCommandKind::Help, seq![])
    } else {
        match strip_prefix(t, "doc "@) {
            Some(r) => (McpCommandKind::Doc, trim(r)),
            None => match after_word(t, "catalog"@) {
                Some(r) => (McpCommandKind::Catalog, trim(r)),
                None => match after_word(t, "serve"@) {
                    Some(r) => (McpCommandKind::Serve, trim(r)),
                    None => if eq_ignore_case(t, "status"@) {
                        (McpCommandKind::Status, seq![])
                    } else if eq_ignore_case(t, "stop"@) {
                        (McpCommandKind::Stop, seq![])
                    } else if eq_ignore_case(t, "break"@) || eq_ignore_case(t, "interrupt"@) {
                        (McpCommandKind::Interrupt, seq![])
                    } else {
                        match strip_prefix(t, "exec "@) {
                            Some(r) => (McpCommandKind::Exec, trim(r)),
                            None => (McpCommandKind::Exec, t),
                        }
                    },
                },
            },
        }
    }
}

fn is_keyword(t: &Vec<char>, word: &str) -> (r: bool)
    ensures
        r == eq_ignore_case(t@, word@),
{
    eq_ignore_case_chars(t, &chars_of(word))
}

/// What follows the word `kw` at the start of `t`, if `t` starts with it as
/// a whole word.
fn word_argument(t: &Vec<char>, kw: &str) -> (res: Option<Vec<char>>)
    ensures
        opt_chars_view(res) == after_word(t@, kw@),
{
    match strip_prefix_chars(t, &chars_of(kw)) {
        Some(r) => {
            if r.len() == 0 || is_whitespace(r[0]) {
                Some(r)
            } else {
                None
            }
        },
        None => None,
    }
}

fn command(kind: McpCommandKind, argument: &Vec<char>) -> (res: McpCommand)
    ensures
        res.kind == kind,
        res.argument@ == argument@,
{
    McpCommand { kind, argument: string_of(argument) }
}

/// Understands the argument text of `!mcp`.
pub fn parse_mcp_command(args: &str) -> (res: McpCommand)
    ensures
        (res.kind, res.argument@) == spec_parse(trim(args@)),
{
    let t = trim_chars(&chars_of(args));
    let none: Vec<char> = Vec::new();
    if t.len() == 0 || is_keyword(&t, "help") {
        return command(McpCommandKind::Help, &none);
    }
    if let Some(r) = strip_prefix_chars(&t, &chars_of("doc ")) {
        return command(McpCommandKind::Doc, &trim_chars(&r));
    }
    if let Some(r) = word_argument(&t, "catalog") {
        return command(McpCommandKind::Catalog, &trim_chars(&r));
    }
    if let Some(r) = word_argument(&t, "serve") {
        return command(McpCommandKind::Serve, &trim_chars(&r));
    }
    if is_keyword(&t, "status") {
        return command(McpCommandKind::Status, &none);
    }
    if is_keyword(&t, "stop") {
        return command(McpCommandKind::Stop, &none);
    }
    if is_keyword(&t, "break") || is_keyword(&t, "interrupt") {
        return command(McpCommandKind::Interrupt, &none);
    }
    if let Some(r) = strip_prefix_chars(&t, &chars_of("exec ")) {
        return command(McpCommandKind::Exec, &trim_chars(&r));
    }
    command(McpCommandKind::Exec, &t)
}

/// The help text of `!mcp`.
pub const HELP_TEXT: &'static str = "windbg-mcp commands:\n\n  !mcp help\n      Show this help text.\n\n  !mcp serve [host:port]\n      Start the MCP Streamable HTTP server inside the WinDbg plugin. Default bind: 127.0.0.1:50051, endpoint: /mcp\n\n  !mcp status\n      Show whether the in-process MCP server is running.\n\n  !mcp stop\n      Stop the in-process MCP server.\n\n  !mcp break\n      Request a debugger break into the currently running target. Alias: !mcp interrupt\n\n  !mcp catalog [query]\n      List catalog entries or search the extracted debugger command catalog.\n\n  !mcp doc <token-or-id>\n      Show the static documentation for one extracted command topic.\n\n  !mcp exec <debugger command>\n      Execute a raw debugger command through dbgeng and print the captured output.\n\nIf the first token is not recognized as a subcommand, !mcp treats the input as `exec`.";

/// The help text of `!mcp`.
pub fn help_text() -> (res: &'static str)
    ensures
        res@ == HELP_TEXT@,
{
    HELP_TEXT
}

/// The entry `!mcp doc` shows: the lookup of the query, or else the best
/// search result.
pub fn doc_entry<'a>(catalog: &'a Catalog, query: &str) -> (res: Option<&'a CatalogEntry>)
    ensures
        match spec_lookup(catalog@, query@) {
            Some(e) => opt_entry(res) == Some(e),
            None => exists|idx: Seq<int>|
                {
                    &&& is_ranked_search(catalog@, query@, None, 1, idx)
                    &&& idx.len() == 0 ==> res is None
                    &&& idx.len() > 0 ==> opt_entry(res) == Some(catalog@[idx[0]])
                },
        },
{
    match catalog.lookup(query) {
        Some(e) => Some(e),
        None => {
            let mut results = catalog.search(query, None, 1);
            if results.len() == 0 {
                None
            } else {
                let e = results[0];
                Some(e)
            }
        },
    }
}

/// The page `!mcp doc` prints for an entry.
pub open spec fn doc_text(e: CatalogEntry) -> Seq<char> {
    e.title@ + "\n\n"@ + "tokens: "@ + join(e.token_views(), ", "@) + "\n"@ + "id: "@ + e.id@
        + "\n\n"@ + e.documentation@
}

/// The page `!mcp doc` prints for an entry.
pub fn render_doc(entry: &CatalogEntry) -> (res: String)
    ensures
        res@ == doc_text(*entry),
{
    let mut text = String::new();
    push_str(&mut text, entry.title.as_str());
    push_str(&mut text, "\n\n");
    push_str(&mut text, "tokens: ");
    let tokens = join_strings(&entry.tokens, ", ");
    push_chars(&mut text, &tokens);
    push_str(&mut text, "\n");
    push_str(&mut text, "id: ");
    push_str(&mut text, entry.id.as_str());
    push_str(&mut text, "\n\n");
    push_str(&mut text, entry.documentation.as_str());
    text
}

/// What `!mcp doc` prints when nothing matches.
pub open spec fn no_match_text(query: Seq<char>) -> Seq<char> {
    "No catalog entry matched `"@ + query + "`.\n"@
}

/// What `!mcp doc` prints when nothing matches.
pub fn render_no_match(query: &str) -> (res: String)
    ensures
        res@ == no_match_text(query@),
{
    let mut text = String::new();
    push_str(&mut text, "No catalog entry matched `");
    push_str(&mut text, query);
    push_str(&mut text, "`.\n");
    text
}

/// The heading of a catalog listing.
pub open spec fn listing_header(query: Seq<char>) -> Seq<char> {
    if query.len() == 0 {
        "First 25 extracted debugger command topics:\n\n"@
    } else {
        "Catalog matches for `"@ + query + "`:\n\n"@
    }
}

/// The lines of one entry in a catalog listing.
pub open spec fn listing_item(e: CatalogEntry) -> Seq<char> {
    "- "@ + e.title@ + " | id="@ + e.id@ + " | tokens="@ + join(e.token_views(), ", "@) + "\n  "@
        + e.summary@ + "\n\n"@
}

/// The items of a listing, in order.
pub open spec fn listing_items(es: Seq<CatalogEntry>) -> Seq<char>
    decreases es.len(),
{
    if es.len() == 0 {
        seq![]
    } else {
        listing_items(es.drop_last()) + listing_item(es.last())
    }
}

/// The entries at the positions `idx`.
pub open spec fn entries_at(entries: Seq<CatalogEntry>, idx: Seq<int>) -> Seq<CatalogEntry> {
    idx.map_values(|i: int| entries[i])
}

/// `!mcp catalog [query]`: the first 25 results of a search for the query,
/// under a heading.
pub fn render_catalog_listing(catalog: &Catalog, query: &str) -> (res: String)
    ensures
        exists|idx: Seq<int>|
            {
                &&& is_ranked_search(catalog@, query@, None, 25, idx)
                &&& res@ == listing_header(query@) + listing_items(entries_at(catalog@, idx))
            },
{
    let results = catalog.search(query, None, 25);
    let ghost idx = choose|idx: Seq<int>|
        is_ranked_search(catalog@, query@, None, 25, idx) && lists_entries(results@, catalog@, idx);
    let mut text = String::new();
    if query.is_empty() {
        push_str(&mut text, "First 25 extracted debugger command topics:\n\n");
    } else {
        push_str(&mut text, "Catalog matches for `");
        push_str(&mut text, query);
        push_str(&mut text, "`:\n\n");
    }
    let ghost head = text@;
    let mut k: usize = 0;
    while k < results.len()
        invariant
            0 <= k <= results@.len(),
            lists_entries(results@, catalog@, idx),
            text@ == head + listing_items(entries_at(catalog@, idx).take(k as int)),
        decreases results.len() - k,
    {
        let e = results[k];
        let ghost before = text@;
        push_str(&mut text, "- ");
        push_str(&mut text, e.title.as_str());
        push_str(&mut text, " | id=");
        push_str(&mut text, e.id.as_str());
        push_str(&mut text, " | tokens=");
        let tokens = join_strings(&e.tokens, ", ");
        push_chars(&mut text, &tokens);
        push_str(&mut text, "\n  ");
        push_str(&mut text, e.summary.as_str());
        push_str(&mut text, "\n\n");
        proof {
            let es = entries_at(catalog@, idx);
            assert(es.take(k as int + 1).drop_last() =~= es.take(k as int));
            assert(es[k as int] == *e);
            assert(text@ =~= before + listing_item(*e));
        }
        k = k + 1;
    }
    proof {
        assert(entries_at(catalog@, idx).take(idx.len() as int) =~= entries_at(catalog@, idx));
        assert(head == listing_header(query@));
        assert(is_ranked_search(catalog@, query@, None, 25, idx));
    }
    text
}

/// A line with each `%` doubled, so that the engine's output formatting
/// prints it as it is.
pub open spec fn escape_percent(s: Seq<char>) -> Seq<char>
    decreases s.len(),
{
    if s.len() == 0 {
        seq![]
    } else {
        escape_percent(s.drop_last()) + (if s.last() == '%' {
            seq!['%', '%']
        } else {
            seq![s.last()]
        })
    }
}

/// One output line: the escaped line and a line break.
pub open spec fn output_line(l: Seq<char>) -> Seq<char> {
    escape_percent(l) + seq!['\n']
}

fn escape_line(line: &Vec<char>) -> (res: String)
    ensures
        res@ == output_line(line@),
{
    let mut s = String::new();
    let mut i: usize = 0;
    while i < line.len()
        invariant
            0 <= i <= line.len(),
            s@ == escape_percent(line@.take(i as int)),
        decreases line.len() - i,
    {
        let c = line[i];
        assert(line@.take(i as int + 1).drop_last() =~= line@.take(i as int));
        if c == '%' {
            push_char(&mut s, '%');
            push_char(&mut s, '%');
        } else {
            push_char(&mut s, c);
        }
        assert(s@ =~= escape_percent(line@.take(i as int + 1)));
        i = i + 1;
    }
    assert(line@.take(line.len() as int) =~= line@);
    push_char(&mut s, '\n');
    s
}

/// The lines the engine is given to print a text: one per line of the text,
/// with `%` doubled and a line break added.
pub fn output_lines(text: &str) -> (res: Vec<String>)
    ensures
        string_views(res@) == lines(text@).map_values(|l: Seq<char>| output_line(l)),
{
    let ls = split_lines(&chars_of(text));
    let ghost target = lines(text@).map_values(|l: Seq<char>| output_line(l));
    let mut res: Vec<String> = Vec::new();
    let mut i: usize = 0;
    while i < ls.len()
        invariant
            0 <= i <= ls.len(),
            views(ls@) == lines(text@),
            target == lines(text@).map_values(|l: Seq<char>| output_line(l)),
            string_views(res@) == target.take(i as int),
        decreases ls.len() - i,
    {
        let line = escape_line(&ls[i]);
        let ghost before = res@;
        res.push(line);
        assert(string_views(res@) =~= string_views(before).push(line@));
        assert(target.take(i as int + 1) =~= target.take(i as int).push(target[i as int]));
        i = i + 1;
    }
    assert(target.take(ls.len() as int) =~= target);
    res
}

/// The report of a running server.
pub open spec fn running_text(url: Seq<char>) -> Seq<char> {
    "WinDbg MCP server is running at "@ + url + "\n"@
}

/// What `!mcp serve` and `!mcp status` print for a running server, and
/// `!mcp status` for a stopped one.
pub fn status_report(status: Option<&PluginServerStatus>) -> (res: String)
    ensures
        match status {
            Some(s) => res@ == running_text(s.mcp_url@),
            None => res@ == "WinDbg MCP server is not running.\n"@,
        },
{
    let mut text = String::new();
    match status {
        Some(s) => {
            push_str(&mut text, "WinDbg MCP server is running at ");
            push_str(&mut text, s.mcp_url.as_str());
            push_str(&mut text, "\n");
        },
        None => push_str(&mut text, "WinDbg MCP server is not running.\n"),
    }
    text
}

/// What `!mcp stop` prints.
pub fn stop_report(stopped: Option<&PluginServerStatus>) -> (res: String)
    ensures
        match stopped {
            Some(s) => res@ == "Stopped WinDbg MCP server at "@ + s.mcp_url@ + "\n"@,
            None => res@ == "WinDbg MCP server was not running.\n"@,
        },
{
    let mut text = String::new();
    match stopped {
        Some(s) => {
            push_str(&mut text, "Stopped WinDbg MCP server at ");
            push_str(&mut text, s.mcp_url.as_str());
            push_str(&mut text, "\n");
        },
        None => push_str(&mut text, "WinDbg MCP server was not running.\n"),
    }
    text
}

} // verus!

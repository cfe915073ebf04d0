//! The static command catalog: its entries, the resource URIs that name
//! them, lookup by id and token, ranked search and the catalog index text.
use vstd::prelude::*;

use crate::search::{
    count_term_hits, is_ranked_search, key_before, lemma_key_total, lemma_key_transitive,
    lemma_section_indices, min_int, qualified, ranks_before, score_entry, score_of, search_terms,
    section_indices, spec_search_terms,
};
use crate::syntax::{
    format_structured_syntax, infer_syntax_block, opt_chars_view, spec_format_structured,
    spec_infer_syntax,
};
use crate::text::{
    chars_eq, chars_of, decimal, eq_ignore_case, eq_ignore_case_chars, lemma_lex_irreflexive,
    lemma_strip_prefix_concat, lex_lt_chars, lower, opt_str_view, push_decimal_str, push_str,
    starts_with, string_of, string_views, strip_prefix, strip_prefix_chars, to_lower, trim,
    trim_chars, views,
};

verus! {

pub const RESOURCE_SCHEME: &'static str = "windbg://command/";

pub const FULL_RESOURCE_SCHEME: &'static str = "windbg://command-full/";

pub const INDEX_URI: &'static str = "windbg://catalog/index";

pub const TEMPLATE_URI: &'static str = "windbg://command/{id}";

pub const FULL_TEMPLATE_URI: &'static str = "windbg://command-full/{id}";

/// Which rendering of an entry a resource URI asks for.
#[derive(Debug, Clone, Copy, PartialEq, Eq, Structural)]
pub enum CatalogResourceKind {
    Compact,
    Full,
}

/// Which tool an agent should use for an entry.
#[derive(Debug, Clone, Copy, PartialEq, Eq, Structural)]
pub enum ToolRouting {
    ExecuteCommand,
    InterruptTarget,
    DocumentationOnly,
}

/// The part of the debugger documentation an entry comes from.
#[derive(Debug, Clone, Copy, PartialEq, Eq, Structural)]
pub enum CatalogSection {
    Command,
    MetaCommand,
}

/// One documented debugger command topic.
#[derive(Debug, Clone)]
pub struct CatalogEntry {
    pub id: String,
    pub section: CatalogSection,
    pub title: String,
    pub summary: String,
    pub tokens: Vec<String>,
    pub supports_text_execution: bool,
    pub user_mode_syntax: Option<String>,
    pub kernel_mode_syntax: Option<String>,
    pub documentation: String,
}

/// The view of an optional string.
pub open spec fn opt_string_view(o: Option<String>) -> Option<Seq<char>> {
    match o {
        Some(s) => Some(s@),
        None => None,
    }
}

/// The name of the tool that handles a routing, where there is one.
pub open spec fn spec_recommended_tool(r: ToolRouting) -> Option<Seq<char>> {
    match r {
        ToolRouting::ExecuteCommand => Some("windbg_execute_command"@),
        ToolRouting::InterruptTarget => Some("windbg_interrupt_target"@),
        ToolRouting::DocumentationOnly => None,
    }
}

/// The short name of a routing.
pub open spec fn spec_routing_name(r: ToolRouting) -> Seq<char> {
    match r {
        ToolRouting::ExecuteCommand => "execute_command"@,
        ToolRouting::InterruptTarget => "interrupt_target"@,
        ToolRouting::DocumentationOnly => "documentation_only"@,
    }
}

impl CatalogEntry {
    /// The views of the entry's tokens.
    pub open spec fn token_views(&self) -> Seq<Seq<char>> {
        string_views(self.tokens@)
    }

    /// The first token, or the empty text when there is none.
    pub open spec fn spec_primary_token(&self) -> Seq<char> {
        if self.tokens@.len() > 0 {
            self.tokens@[0]@
        } else {
            Seq::empty()
        }
    }

    /// The user-mode syntax, or else the kernel-mode syntax.
    pub open spec fn spec_syntax_preview(&self) -> Option<Seq<char>> {
        match self.user_mode_syntax {
            Some(u) => Some(u@),
            None => match self.kernel_mode_syntax {
                Some(k) => Some(k@),
                None => None,
            },
        }
    }

    /// The structured syntax block, or else the one inferred from the
    /// documentation text.
    pub open spec fn spec_syntax_block(&self) -> Option<Seq<char>> {
        match spec_format_structured(
            opt_string_view(self.user_mode_syntax),
            opt_string_view(self.kernel_mode_syntax),
        ) {
            Some(s) => Some(s),
            None => spec_infer_syntax(self.documentation@),
        }
    }

    /// Some token equals `CTRL+C` up to ASCII case.
    pub open spec fn has_break_token(&self) -> bool {
        exists|i: int| 0 <= i < self.tokens@.len() && eq_ignore_case(#[trigger] self.tokens@[i]@, "CTRL+C"@)
    }

    /// The tool routing of the entry.
    pub open spec fn spec_tool_routing(&self) -> ToolRouting {
        if self.supports_text_execution {
            ToolRouting::ExecuteCommand
        } else if self.has_break_token() {
            ToolRouting::InterruptTarget
        } else {
            ToolRouting::DocumentationOnly
        }
    }

    /// `windbg://command/{id}`.
    pub fn resource_uri(&self) -> (res: String)
        ensures
            res@ == RESOURCE_SCHEME@ + self.id@,
    {
        let mut s = String::new();
        push_str(&mut s, RESOURCE_SCHEME);
        push_str(&mut s, self.id.as_str());
        s
    }

    /// `windbg://command-full/{id}`.
    pub fn full_resource_uri(&self) -> (res: String)
        ensures
            res@ == FULL_RESOURCE_SCHEME@ + self.id@,
    {
        let mut s = String::new();
        push_str(&mut s, FULL_RESOURCE_SCHEME);
        push_str(&mut s, self.id.as_str());
        s
    }

    /// The first token, or `""` when the entry has none.
    pub fn primary_token(&self) -> (res: &str)
        ensures
            res@ == self.spec_primary_token(),
    {
        if self.tokens.len() > 0 {
            self.tokens[0].as_str()
        } else {
            proof {
                reveal_strlit("");
            }
            ""
        }
    }

    /// Whether the entry documents more than one command spelling.
    pub fn variants_required(&self) -> (res: bool)
        ensures
            res == (self.tokens@.len() > 1),
    {
        self.tokens.len() > 1
    }

    /// `{primary token} - {summary}`.
    pub fn short_label(&self) -> (res: String)
        ensures
            res@ == self.spec_primary_token() + " - "@ + self.summary@,
    {
        let mut s = String::new();
        push_str(&mut s, self.primary_token());
        push_str(&mut s, " - ");
        push_str(&mut s, self.summary.as_str());
        s
    }

    /// The user-mode syntax, or else the kernel-mode syntax, as written.
    pub fn syntax_preview(&self) -> (res: Option<&str>)
        ensures
            opt_str_view(res) == self.spec_syntax_preview(),
    {
        match &self.user_mode_syntax {
            Some(u) => Some(u.as_str()),
            None => match &self.kernel_mode_syntax {
                Some(k) => Some(k.as_str()),
                None => None,
            },
        }
    }

    /// The cleaned structured syntax of the entry; where it has none, the
    /// syntax section inferred from its documentation.
    pub fn syntax_block(&self) -> (res: Option<String>)
        ensures
            opt_string_view(res) == self.spec_syntax_block(),
    {
        let user = match &self.user_mode_syntax {
            Some(u) => Some(chars_of(u.as_str())),
            None => None,
        };
        let kernel = match &self.kernel_mode_syntax {
            Some(k) => Some(chars_of(k.as_str())),
            None => None,
        };
        let structured = format_structured_syntax(&user, &kernel);
        assert(opt_string_view(self.user_mode_syntax) == opt_chars_view(user));
        assert(opt_string_view(self.kernel_mode_syntax) == opt_chars_view(kernel));
        match structured {
            Some(s) => Some(string_of(&s)),
            None => {
                let doc = chars_of(self.documentation.as_str());
                match infer_syntax_block(&doc) {
                    Some(s) => Some(string_of(&s)),
                    None => None,
                }
            },
        }
    }

    /// Whether some token equals `CTRL+C` up to ASCII case.
    fn break_token_present(&self) -> (res: bool)
        ensures
            res == self.has_break_token(),
    {
        let ctrl_c = chars_of("CTRL+C");
        let mut i: usize = 0;
        while i < self.tokens.len()
            invariant
                0 <= i <= self.tokens@.len(),
                ctrl_c@ == "CTRL+C"@,
                forall|j: int| 0 <= j < i ==> !eq_ignore_case(#[trigger] self.tokens@[j]@, "CTRL+C"@),
            decreases self.tokens.len() - i,
        {
            let t = chars_of(self.tokens[i].as_str());
            if eq_ignore_case_chars(&t, &ctrl_c) {
                return true;
            }
            i = i + 1;
        }
        false
    }

    /// Text-executable entries go to the command tool, `CTRL+C` entries to
    /// the interrupt tool, all others are documentation only.
    pub fn tool_routing(&self) -> (res: ToolRouting)
        ensures
            res == self.spec_tool_routing(),
    {
        if self.supports_text_execution {
            return ToolRouting::ExecuteCommand;
        }
        if self.break_token_present() {
            return ToolRouting::InterruptTarget;
        }
        ToolRouting::DocumentationOnly
    }

    /// The MCP tool that handles the entry, if any.
    pub fn recommended_tool(&self) -> (res: Option<&'static str>)
        ensures
            opt_str_view(res) == spec_recommended_tool(self.spec_tool_routing()),
    {
        match self.tool_routing() {
            ToolRouting::ExecuteCommand => Some("windbg_execute_command"),
            ToolRouting::InterruptTarget => Some("windbg_interrupt_target"),
            ToolRouting::DocumentationOnly => None,
        }
    }

    /// The short name of the entry's routing.
    pub fn tool_routing_name(&self) -> (res: &'static str)
        ensures
            res@ == spec_routing_name(self.spec_tool_routing()),
    {
        match self.tool_routing() {
            ToolRouting::ExecuteCommand => "execute_command",
            ToolRouting::InterruptTarget => "interrupt_target",
            ToolRouting::DocumentationOnly => "documentation_only",
        }
    }
}


/// The static catalog of debugger command topics.
#[derive(Debug)]
pub struct Catalog {
    entries: Vec<CatalogEntry>,
}

impl View for Catalog {
    type V = Seq<CatalogEntry>;

    closed spec fn view(&self) -> Seq<CatalogEntry> {
        self.entries@
    }
}

/// The entry an optional reference points to.
pub open spec fn opt_entry(o: Option<&CatalogEntry>) -> Option<CatalogEntry> {
    match o {
        Some(e) => Some(*e),
        None => None,
    }
}

/// The position of the last entry among the first `n` whose id is `id`,
/// or -1. Lookup by id finds the entry that was registered last under it.
pub open spec fn last_with_id(entries: Seq<CatalogEntry>, id: Seq<char>, n: int) -> int
    decreases n,
{
    if n <= 0 || n > entries.len() {
        -1
    } else if entries[n - 1].id@ == id {
        n - 1
    } else {
        last_with_id(entries, id, n - 1)
    }
}

/// The position of the entry that has the id `id`, or -1.
pub open spec fn id_index(entries: Seq<CatalogEntry>, id: Seq<char>) -> int {
    last_with_id(entries, id, entries.len() as int)
}

/// The entry that has the id `id`.
pub open spec fn spec_get(entries: Seq<CatalogEntry>, id: Seq<char>) -> Option<CatalogEntry> {
    if id_index(entries, id) >= 0 {
        Some(entries[id_index(entries, id)])
    } else {
        None
    }
}

/// The entry that a compact resource URI names.
pub open spec fn spec_get_by_resource_uri(entries: Seq<CatalogEntry>, uri: Seq<char>) -> Option<
    CatalogEntry,
> {
    match strip_prefix(uri, RESOURCE_SCHEME@) {
        Some(id) => spec_get(entries, id),
        None => None,
    }
}

/// What a resource URI names: a compact URI of a known id, or else a full
/// URI of a known id.
pub open spec fn spec_resolve(entries: Seq<CatalogEntry>, uri: Seq<char>) -> Option<
    (CatalogResourceKind, CatalogEntry),
> {
    match spec_get_by_resource_uri(entries, uri) {
        Some(e) => Some((CatalogResourceKind::Compact, e)),
        None => match strip_prefix(uri, FULL_RESOURCE_SCHEME@) {
            Some(id) => match spec_get(entries, id) {
                Some(e) => Some((CatalogResourceKind::Full, e)),
                None => None,
            },
            None => None,
        },
    }
}

/// Some token of `e` equals `needle` up to ASCII case.
pub open spec fn has_token(e: CatalogEntry, needle: Seq<char>) -> bool {
    exists|i: int| 0 <= i < e.tokens@.len() && eq_ignore_case(#[trigger] e.tokens@[i]@, needle)
}

/// The positions, in order, of the first `n` entries that have a token
/// equal to `needle` up to ASCII case.
pub open spec fn token_hits(entries: Seq<CatalogEntry>, needle: Seq<char>, n: int) -> Seq<int>
    decreases n,
{
    if n <= 0 || n > entries.len() {
        seq![]
    } else if has_token(entries[n - 1], needle) {
        token_hits(entries, needle, n - 1).push(n - 1)
    } else {
        token_hits(entries, needle, n - 1)
    }
}

/// The positions of the entries that a token query finds: the query is
/// trimmed, and tokens are compared up to ASCII case.
pub open spec fn spec_find_by_token(entries: Seq<CatalogEntry>, token: Seq<char>) -> Seq<int> {
    token_hits(entries, lower(trim(token)), entries.len() as int)
}

/// `res` lists the entries at the positions `idx`, in order.
pub open spec fn lists_entries(
    res: Seq<&CatalogEntry>,
    entries: Seq<CatalogEntry>,
    idx: Seq<int>,
) -> bool {
    &&& res.len() == idx.len()
    &&& forall|k: int|
        0 <= k < idx.len() ==> 0 <= idx[k] < entries.len() && *res[k] == entries[#[trigger] idx[k]]
}

/// What a lookup finds: the entry with that id, or else the only entry with
/// a matching token.
pub open spec fn spec_lookup(entries: Seq<CatalogEntry>, query: Seq<char>) -> Option<CatalogEntry> {
    match spec_get(entries, query) {
        Some(e) => Some(e),
        None => {
            let hits = spec_find_by_token(entries, query);
            if hits.len() == 1 {
                Some(entries[hits[0]])
            } else {
                None
            }
        },
    }
}

pub proof fn lemma_last_with_id(entries: Seq<CatalogEntry>, id: Seq<char>, n: int)
    requires
        0 <= n <= entries.len(),
    ensures
        -1 <= last_with_id(entries, id, n) < n,
        last_with_id(entries, id, n) >= 0 ==> entries[last_with_id(entries, id, n)].id@ == id,
    decreases n,
{
    if n > 0 && entries[n - 1].id@ != id {
        lemma_last_with_id(entries, id, n - 1);
    }
}

pub proof fn lemma_token_hits(entries: Seq<CatalogEntry>, needle: Seq<char>, n: int)
    requires
        0 <= n <= entries.len(),
    ensures
        forall|k: int|
            0 <= k < token_hits(entries, needle, n).len() ==> 0 <= #[trigger] token_hits(
                entries,
                needle,
                n,
            )[k] < n,
    decreases n,
{
    if n > 0 {
        lemma_token_hits(entries, needle, n - 1);
        let prev = token_hits(entries, needle, n - 1);
        let cur = token_hits(entries, needle, n);
        assert forall|k: int| 0 <= k < cur.len() implies 0 <= #[trigger] cur[k] < n by {
            if k < prev.len() {
                assert(cur[k] == prev[k]);
            }
        }
    }
}

/// Whether some token of `e` equals `needle` up to ASCII case.
fn entry_has_token(e: &CatalogEntry, needle: &Vec<char>) -> (r: bool)
    ensures
        r == has_token(*e, needle@),
{
    let mut i: usize = 0;
    while i < e.tokens.len()
        invariant
            0 <= i <= e.tokens@.len(),
            forall|j: int| 0 <= j < i ==> !eq_ignore_case(#[trigger] e.tokens@[j]@, needle@),
        decreases e.tokens.len() - i,
    {
        let t = chars_of(e.tokens[i].as_str());
        if eq_ignore_case_chars(&t, needle) {
            return true;
        }
        i = i + 1;
    }
    false
}

/// A scored candidate: `(score, matched terms, position)`.
pub type Scored = (u128, usize, usize);

/// The score and match count of a candidate are those of its entry.
pub open spec fn scored_ok(
    entries: Seq<CatalogEntry>,
    needle: Seq<char>,
    terms: Seq<Seq<char>>,
    t: Scored,
) -> bool {
    &&& 0 <= t.2 < entries.len()
    &&& t.0 == score_of(entries[t.2 as int], needle, terms)
    &&& t.1 == count_term_hits(entries[t.2 as int], terms)
}

/// Candidate `a` comes before candidate `b`.
pub open spec fn scored_before(entries: Seq<CatalogEntry>, a: Scored, b: Scored) -> bool {
    key_before(
        a.0 as int,
        a.1 as int,
        entries[a.2 as int].id@,
        a.2 as int,
        b.0 as int,
        b.1 as int,
        entries[b.2 as int].id@,
        b.2 as int,
    )
}

/// The positions of a list of candidates.
pub open spec fn positions(order: Seq<Scored>) -> Seq<int> {
    order.map_values(|t: Scored| t.2 as int)
}

pub proof fn lemma_push_contains(s: Seq<int>, x: int, y: int)
    ensures
        s.push(x).contains(y) == (s.contains(y) || x == y),
{
    if s.contains(y) {
        let k = choose|k: int| 0 <= k < s.len() && s[k] == y;
        assert(s.push(x)[k] == y);
    }
    if x == y {
        assert(s.push(x)[s.len() as int] == y);
    }
    if s.push(x).contains(y) {
        let k = choose|k: int| 0 <= k < s.push(x).len() && s.push(x)[k] == y;
        if k < s.len() {
            assert(s[k] == y);
        }
    }
}

pub proof fn lemma_insert_contains(s: Seq<int>, p: int, x: int, y: int)
    requires
        0 <= p <= s.len(),
    ensures
        s.insert(p, x).contains(y) == (s.contains(y) || x == y),
{
    let t = s.insert(p, x);
    if s.contains(y) {
        let k = choose|k: int| 0 <= k < s.len() && s[k] == y;
        if k < p {
            assert(t[k] == y);
        } else {
            assert(t[k + 1] == y);
        }
    }
    if x == y {
        assert(t[p] == y);
    }
    if t.contains(y) {
        let k = choose|k: int| 0 <= k < t.len() && t[k] == y;
        if k < p {
            assert(s[k] == y);
        } else if k > p {
            assert(s[k - 1] == y);
        }
    }
}

impl Catalog {
    /// A catalog of the given entries, in the given order.
    pub fn from_entries(entries: Vec<CatalogEntry>) -> (res: Catalog)
        ensures
            res@ == entries@,
    {
        Catalog { entries }
    }

    /// All entries, in catalog order.
    pub fn entries(&self) -> (res: &[CatalogEntry])
        ensures
            res@ == self@,
    {
        self.entries.as_slice()
    }

    /// The number of entries.
    pub fn len(&self) -> (res: usize)
        ensures
            res == self@.len(),
    {
        self.entries.len()
    }

    /// The URI of the catalog index resource.
    pub fn command_index_uri(&self) -> (res: &'static str)
        ensures
            res@ == INDEX_URI@,
    {
        INDEX_URI
    }

    /// The URI template of compact command cards.
    pub fn command_template_uri(&self) -> (res: &'static str)
        ensures
            res@ == TEMPLATE_URI@,
    {
        TEMPLATE_URI
    }

    /// The URI template of full command pages.
    pub fn full_command_template_uri(&self) -> (res: &'static str)
        ensures
            res@ == FULL_TEMPLATE_URI@,
    {
        FULL_TEMPLATE_URI
    }

    /// The entry with the given id; where several share it, the last one.
    pub fn get_by_id(&self, id: &str) -> (res: Option<&CatalogEntry>)
        ensures
            opt_entry(res) == spec_get(self@, id@),
    {
        let key = id.to_owned();
        let mut n = self.entries.len();
        while n > 0
            invariant
                n <= self.entries@.len(),
                key@ == id@,
                id_index(self.entries@, id@) == last_with_id(self.entries@, id@, n as int),
            decreases n,
        {
            if self.entries[n - 1].id == key {
                proof {
                    lemma_last_with_id(self.entries@, id@, n as int);
                }
                return Some(&self.entries[n - 1]);
            }
            n = n - 1;
        }
        None
    }

    /// The entry that a `windbg://command/{id}` URI names.
    pub fn get_by_resource_uri(&self, uri: &str) -> (res: Option<&CatalogEntry>)
        ensures
            opt_entry(res) == spec_get_by_resource_uri(self@, uri@),
    {
        let u = chars_of(uri);
        let scheme = chars_of(RESOURCE_SCHEME);
        match strip_prefix_chars(&u, &scheme) {
            Some(id) => {
                let id = string_of(&id);
                self.get_by_id(id.as_str())
            },
            None => None,
        }
    }

    /// What a compact or full command resource URI names.
    pub fn resolve_resource_uri(&self, uri: &str) -> (res: Option<
        (CatalogResourceKind, &CatalogEntry),
    >)
        ensures
            match res {
                Some((kind, e)) => spec_resolve(self@, uri@) == Some((kind, *e)),
                None => spec_resolve(self@, uri@) is None,
            },
    {
        if let Some(entry) = self.get_by_resource_uri(uri) {
            return Some((CatalogResourceKind::Compact, entry));
        }
        let u = chars_of(uri);
        let scheme = chars_of(FULL_RESOURCE_SCHEME);
        match strip_prefix_chars(&u, &scheme) {
            Some(id) => {
                let id = string_of(&id);
                match self.get_by_id(id.as_str()) {
                    Some(entry) => Some((CatalogResourceKind::Full, entry)),
                    None => None,
                }
            },
            None => None,
        }
    }

    /// The entries, in order, that have a token equal to the trimmed query
    /// up to ASCII case.
    pub fn find_by_token(&self, token: &str) -> (res: Vec<&CatalogEntry>)
        ensures
            lists_entries(res@, self@, spec_find_by_token(self@, token@)),
    {
        let needle = to_lower(&trim_chars(&chars_of(token)));
        let ghost nd = lower(trim(token@));
        let mut res: Vec<&CatalogEntry> = Vec::new();
        let mut i: usize = 0;
        while i < self.entries.len()
            invariant
                0 <= i <= self.entries@.len(),
                needle@ == nd,
                lists_entries(res@, self.entries@, token_hits(self.entries@, nd, i as int)),
            decreases self.entries.len() - i,
        {
            proof {
                lemma_token_hits(self.entries@, nd, i as int);
            }
            if entry_has_token(&self.entries[i], &needle) {
                res.push(&self.entries[i]);
            }
            i = i + 1;
        }
        res
    }

    /// The entry with the given id, or else the only entry with a matching
    /// token; `None` when neither exists or the token is ambiguous.
    pub fn lookup(&self, query: &str) -> (res: Option<&CatalogEntry>)
        ensures
            opt_entry(res) == spec_lookup(self@, query@),
    {
        match self.get_by_id(query) {
            Some(e) => Some(e),
            None => {
                let mut matches = self.find_by_token(query);
                if matches.len() == 1 {
                    matches.pop()
                } else {
                    None
                }
            },
        }
    }
}


impl Catalog {
    /// Whether candidate `a` comes before candidate `b`.
    fn scored_less(&self, a: &Scored, b: &Scored) -> (r: bool)
        requires
            a.2 < self@.len(),
            b.2 < self@.len(),
        ensures
            r == scored_before(self@, *a, *b),
    {
        if a.0 != b.0 {
            return a.0 > b.0;
        }
        if a.1 != b.1 {
            return a.1 > b.1;
        }
        let ida = chars_of(self.entries[a.2].id.as_str());
        let idb = chars_of(self.entries[b.2].id.as_str());
        if lex_lt_chars(&ida, &idb) {
            return true;
        }
        if chars_eq(&ida, &idb) {
            return a.2 < b.2;
        }
        proof {
            lemma_lex_irreflexive(ida@, 0);
        }
        false
    }

    /// The entries of the section that score above zero, best first.
    fn ranked(&self, needle: &Vec<char>, terms: &Vec<Vec<char>>, section: Option<CatalogSection>) -> (order: Vec<Scored>)
        ensures
            order@.len() == qualified(self@, section, needle@, views(terms@), self@.len() as int).len(),
            forall|k: int| 0 <= k < order@.len() ==> scored_ok(self@, needle@, views(terms@), #[trigger] order@[k]),
            forall|a: int, b: int|
                0 <= a < b < order@.len() ==> scored_before(self@, #[trigger] order@[a], #[trigger] order@[b]),
            forall|j: int|
                qualified(self@, section, needle@, views(terms@), self@.len() as int).contains(j)
                    == #[trigger] positions(order@).contains(j),
    {
        let ghost E = self@;
        let ghost N = needle@;
        let ghost T = views(terms@);
        let mut order: Vec<Scored> = Vec::new();
        let mut i: usize = 0;
        while i < self.entries.len()
            invariant
                0 <= i <= E.len(),
                E == self@,
                N == needle@,
                T == views(terms@),
                order@.len() == qualified(E, section, N, T, i as int).len(),
                forall|k: int| 0 <= k < order@.len() ==> scored_ok(E, N, T, #[trigger] order@[k]),
                forall|k: int| 0 <= k < order@.len() ==> (#[trigger] order@[k]).2 < i,
                forall|a: int, b: int|
                    0 <= a < b < order@.len() ==> scored_before(E, #[trigger] order@[a], #[trigger] order@[b]),
                forall|j: int|
                    qualified(E, section, N, T, i as int).contains(j) == #[trigger] positions(order@).contains(j),
            decreases E.len() - i,
        {
            let ghost qi = qualified(E, section, N, T, i as int);
            let entry = &self.entries[i];
            let in_section = match section {
                Some(s) => s == entry.section,
                None => true,
            };
            if in_section {
                let (score, matched) = score_entry(entry, needle, terms);
                if score > 0 {
                    let cand: Scored = (score, matched, i);
                    let mut p: usize = 0;
                    while p < order.len() && !self.scored_less(&cand, &order[p])
                        invariant
                            0 <= p <= order@.len(),
                            E == self@,
                            cand.2 == i,
                            i < E.len(),
                            forall|k: int| 0 <= k < order@.len() ==> scored_ok(E, N, T, #[trigger] order@[k]),
                            forall|k: int| 0 <= k < order@.len() ==> (#[trigger] order@[k]).2 < i,
                            forall|k: int| 0 <= k < p ==> scored_before(E, #[trigger] order@[k], cand),
                        decreases order@.len() - p,
                    {
                        proof {
                            let o = order@[p as int];
                            lemma_key_total(
                                cand.0 as int, cand.1 as int, E[cand.2 as int].id@, cand.2 as int,
                                o.0 as int, o.1 as int, E[o.2 as int].id@, o.2 as int,
                            );
                        }
                        p = p + 1;
                    }
                    let ghost old_order = order@;
                    order.insert(p, cand);
                    proof {
                        assert(order@ == old_order.insert(p as int, cand));
                        assert(positions(order@) =~= positions(old_order).insert(p as int, i as int));
                        assert forall|j: int|
                            qualified(E, section, N, T, i + 1).contains(j) == #[trigger] positions(order@).contains(j)
                        by {
                            lemma_push_contains(qi, i as int, j);
                            lemma_insert_contains(positions(old_order), p as int, i as int, j);
                        }
                        assert forall|a: int, b: int|
                            0 <= a < b < order@.len() implies scored_before(E, #[trigger] order@[a], #[trigger] order@[b])
                        by {
                            if b < p {
                                assert(order@[a] == old_order[a] && order@[b] == old_order[b]);
                            } else if b == p {
                                assert(order@[a] == old_order[a]);
                            } else if a < p {
                                assert(order@[a] == old_order[a] && order@[b] == old_order[b - 1]);
                            } else if a == p {
                                assert(order@[b] == old_order[b - 1]);
                                if b - 1 > p {
                                    let x = old_order[p as int];
                                    let y = old_order[b - 1];
                                    assert(scored_before(E, x, y));
                                    lemma_key_transitive(
                                        cand.0 as int, cand.1 as int, E[cand.2 as int].id@, cand.2 as int,
                                        x.0 as int, x.1 as int, E[x.2 as int].id@, x.2 as int,
                                        y.0 as int, y.1 as int, E[y.2 as int].id@, y.2 as int,
                                    );
                                }
                            } else {
                                assert(order@[a] == old_order[a - 1] && order@[b] == old_order[b - 1]);
                            }
                        }
                    }
                } else {
                    proof {
                        assert(qualified(E, section, N, T, i + 1) == qi);
                    }
                }
            } else {
                proof {
                    assert(qualified(E, section, N, T, i + 1) == qi);
                }
            }
            i = i + 1;
        }
        order
    }

    /// The first `limit` entries of the section, in catalog order.
    fn first_in_section(&self, section: Option<CatalogSection>, limit: usize) -> (res: Vec<&CatalogEntry>)
        ensures
            lists_entries(
                res@,
                self@,
                section_indices(self@, section, self@.len() as int).take(
                    min_int(limit as int, section_indices(self@, section, self@.len() as int).len() as int),
                ),
            ),
    {
        let ghost E = self@;
        let mut res: Vec<&CatalogEntry> = Vec::new();
        let ghost mut idx: Seq<int> = seq![];
        let mut i: usize = 0;
        while i < self.entries.len()
            invariant
                0 <= i <= E.len(),
                E == self@,
                idx.len() == min_int(limit as int, section_indices(E, section, i as int).len() as int),
                idx == section_indices(E, section, i as int).take(idx.len() as int),
                lists_entries(res@, E, idx),
            decreases E.len() - i,
        {
            proof {
                lemma_section_indices(E, section, i as int);
            }
            let ghost si = section_indices(E, section, i as int);
            let entry = &self.entries[i];
            let in_section = match section {
                Some(s) => s == entry.section,
                None => true,
            };
            if in_section && res.len() < limit {
                res.push(entry);
                proof {
                    idx = idx.push(i as int);
                    assert(section_indices(E, section, i + 1) == si.push(i as int));
                    assert(idx =~= si.push(i as int).take(idx.len() as int));
                }
            } else if in_section {
                proof {
                    assert(section_indices(E, section, i + 1) == si.push(i as int));
                    assert(idx =~= si.push(i as int).take(idx.len() as int));
                }
            }
            i = i + 1;
        }
        proof {
            assert(idx =~= section_indices(E, section, E.len() as int).take(
                min_int(limit as int, section_indices(E, section, E.len() as int).len() as int),
            ));
        }
        res
    }

    /// Searches the catalog. A blank query lists the first `limit` entries
    /// of the section; any other query lists up to `limit` entries of the
    /// section that score above zero, by descending score, then descending
    /// number of matched terms, then ascending id.
    pub fn search<'a>(&'a self, query: &str, section: Option<CatalogSection>, limit: usize) -> (res:
        Vec<&'a CatalogEntry>)
        ensures
            exists|idx: Seq<int>|
                is_ranked_search(self@, query@, section, limit as int, idx) && lists_entries(
                    res@,
                    self@,
                    idx,
                ),
    {
        let q = chars_of(query);
        let needle = to_lower(&trim_chars(&q));
        if needle.len() == 0 {
            let res = self.first_in_section(section, limit);
            let ghost all = section_indices(self@, section, self@.len() as int);
            assert(is_ranked_search(self@, query@, section, limit as int, all.take(min_int(limit as int, all.len() as int))));
            return res;
        }
        let terms = search_terms(&q);
        let order = self.ranked(&needle, &terms, section);
        let ghost E = self@;
        let ghost N = needle@;
        let ghost T = views(terms@);
        let ghost Q = qualified(E, section, N, T, E.len() as int);
        let m = if limit < order.len() { limit } else { order.len() };
        let mut res: Vec<&CatalogEntry> = Vec::new();
        let mut k: usize = 0;
        while k < m
            invariant
                0 <= k <= m <= order@.len(),
                E == self@,
                forall|j: int| 0 <= j < order@.len() ==> scored_ok(E, N, T, #[trigger] order@[j]),
                lists_entries(res@, E, positions(order@).take(k as int)),
            decreases m - k,
        {
            let t = order[k];
            res.push(&self.entries[t.2]);
            assert(positions(order@).take(k as int + 1) =~= positions(order@).take(k as int).push(t.2 as int));
            k = k + 1;
        }
        let ghost idx = positions(order@).take(m as int);
        proof {
            assert(T == spec_search_terms(query@));
            assert(N == lower(trim(query@)));
            assert forall|a: int| 0 <= a < idx.len() implies Q.contains(#[trigger] idx[a]) by {
                assert(positions(order@)[a] == idx[a]);
                assert(positions(order@).contains(idx[a]));
            }
            assert forall|a: int, b: int| 0 <= a < b < idx.len() implies ranks_before(E, N, T, #[trigger] idx[a], #[trigger] idx[b]) by {
                assert(scored_before(E, order@[a], order@[b]));
                assert(scored_ok(E, N, T, order@[a]));
                assert(scored_ok(E, N, T, order@[b]));
            }
            assert forall|j: int, kk: int|
                #![trigger Q.contains(j), idx[kk]]
                Q.contains(j) && !idx.contains(j) && 0 <= kk < idx.len() implies ranks_before(E, N, T, idx[kk], j)
            by {
                assert(positions(order@).contains(j));
                let p = choose|p: int| 0 <= p < positions(order@).len() && positions(order@)[p] == j;
                if p < m {
                    assert(idx[p] == j);
                }
                assert(scored_before(E, order@[kk], order@[p]));
                assert(scored_ok(E, N, T, order@[kk]));
                assert(scored_ok(E, N, T, order@[p]));
            }
            assert(is_ranked_search(E, query@, section, limit as int, idx));
        }
        res
    }
}

/// The number of commands (not meta-commands) among the first `n` entries.
pub open spec fn count_commands(entries: Seq<CatalogEntry>, n: int) -> int
    decreases n,
{
    if n <= 0 || n > entries.len() {
        0
    } else {
        count_commands(entries, n - 1) + (if entries[n - 1].section == CatalogSection::Command {
            1int
        } else {
            0
        })
    }
}

pub proof fn lemma_count_commands(entries: Seq<CatalogEntry>, n: int)
    requires
        0 <= n <= entries.len(),
    ensures
        0 <= count_commands(entries, n) <= n,
    decreases n,
{
    if n > 0 {
        lemma_count_commands(entries, n - 1);
    }
}

/// The catalog index: the recommended flow, the number of entries, commands
/// and meta-commands, and the two resource templates.
pub open spec fn index_text(total: nat, commands: nat, meta: nat) -> Seq<char> {
    "WinDbg MCP guide\n\n"@ + "Recommended flow:\n"@
        + "1. Call `windbg_search_catalog` with the user request.\n"@
        + "2. Read `windbg://command/{id}` for the best match; it is optimized for low context.\n"@
        + "3. Read `windbg://command-full/{id}` only when the compact card is insufficient.\n"@
        + "4. Call `windbg_get_state` before execution.\n"@
        + "5. If the debugger is running or busy, call `windbg_interrupt_target` and then verify state again.\n"@
        + "6. Call `windbg_execute_command` only when the debugger is ready for commands.\n\n"@
        + "Total entries: "@ + decimal(total) + "\n"@ + "Commands: "@ + decimal(commands) + "\n"@
        + "Meta-commands: "@ + decimal(meta) + "\n"@ + "Execution state tool: windbg_get_state\n"@
        + "Compact template: "@ + TEMPLATE_URI@ + "\n"@ + "Full template: "@ + FULL_TEMPLATE_URI@
        + "\n\n"@
}

/// The index text of a catalog with these entries.
pub open spec fn spec_render_index(entries: Seq<CatalogEntry>) -> Seq<char> {
    let c = count_commands(entries, entries.len() as int);
    index_text(entries.len(), c as nat, (entries.len() - c) as nat)
}

impl Catalog {
    /// The catalog index text.
    pub fn render_index(&self) -> (res: String)
        ensures
            res@ == spec_render_index(self@),
    {
        let ghost E = self@;
        let mut command_count: usize = 0;
        let mut i: usize = 0;
        while i < self.entries.len()
            invariant
                0 <= i <= E.len(),
                E == self@,
                command_count == count_commands(E, i as int),
            decreases E.len() - i,
        {
            proof {
                lemma_count_commands(E, i as int);
            }
            if self.entries[i].section == CatalogSection::Command {
                command_count = command_count + 1;
            }
            i = i + 1;
        }
        proof {
            lemma_count_commands(E, E.len() as int);
        }
        let meta_count = self.len() - command_count;
        let mut output = String::new();
        push_str(&mut output, "WinDbg MCP guide\n\n");
        push_str(&mut output, "Recommended flow:\n");
        push_str(&mut output, "1. Call `windbg_search_catalog` with the user request.\n");
        push_str(
            &mut output,
            "2. Read `windbg://command/{id}` for the best match; it is optimized for low context.\n",
        );
        push_str(
            &mut output,
            "3. Read `windbg://command-full/{id}` only when the compact card is insufficient.\n",
        );
        push_str(&mut output, "4. Call `windbg_get_state` before execution.\n");
        push_str(
            &mut output,
            "5. If the debugger is running or busy, call `windbg_interrupt_target` and then verify state again.\n",
        );
        push_str(
            &mut output,
            "6. Call `windbg_execute_command` only when the debugger is ready for commands.\n\n",
        );
        push_str(&mut output, "Total entries: ");
        push_decimal_str(&mut output, self.len());
        push_str(&mut output, "\n");
        push_str(&mut output, "Commands: ");
        push_decimal_str(&mut output, command_count);
        push_str(&mut output, "\n");
        push_str(&mut output, "Meta-commands: ");
        push_decimal_str(&mut output, meta_count);
        push_str(&mut output, "\n");
        push_str(&mut output, "Execution state tool: windbg_get_state\n");
        push_str(&mut output, "Compact template: ");
        push_str(&mut output, TEMPLATE_URI);
        push_str(&mut output, "\n");
        push_str(&mut output, "Full template: ");
        push_str(&mut output, FULL_TEMPLATE_URI);
        push_str(&mut output, "\n\n");
        output
    }
}

/// An entry's resource URIs lead back to it: its compact URI names it, and
/// resolves to its compact card; its full URI resolves to its full page.
pub proof fn law_resource_uri_round_trip(entries: Seq<CatalogEntry>, e: CatalogEntry)
    requires
        spec_get(entries, e.id@) == Some(e),
    ensures
        spec_get_by_resource_uri(entries, RESOURCE_SCHEME@ + e.id@) == Some(e),
        spec_resolve(entries, RESOURCE_SCHEME@ + e.id@) == Some((CatalogResourceKind::Compact, e)),
        spec_resolve(entries, FULL_RESOURCE_SCHEME@ + e.id@) == Some((CatalogResourceKind::Full, e)),
{
    lemma_strip_prefix_concat(RESOURCE_SCHEME@, e.id@);
    lemma_strip_prefix_concat(FULL_RESOURCE_SCHEME@, e.id@);
    reveal_strlit("windbg://command/");
    reveal_strlit("windbg://command-full/");
    let full = FULL_RESOURCE_SCHEME@ + e.id@;
    assert(full[16] == '-');
    assert(RESOURCE_SCHEME@[16] == '/');
    assert(!starts_with(full, RESOURCE_SCHEME@));
}

/// Looking up an entry's id finds that entry.
pub proof fn law_lookup_by_id(entries: Seq<CatalogEntry>, e: CatalogEntry)
    requires
        spec_get(entries, e.id@) == Some(e),
    ensures
        spec_lookup(entries, e.id@) == Some(e),
{
}

/// ASCII lower-casing twice is lower-casing once.
proof fn lemma_lower_idempotent(x: Seq<char>)
    ensures
        lower(lower(x)) == lower(x),
{
    assert(lower(lower(x)) =~= lower(x));
}

proof fn lemma_token_hits_contains(entries: Seq<CatalogEntry>, needle: Seq<char>, n: int, j: int)
    requires
        0 <= j < n <= entries.len(),
    ensures
        token_hits(entries, needle, n).contains(j) <==> has_token(entries[j], needle),
    decreases n,
{
    let cur = token_hits(entries, needle, n);
    let prev = token_hits(entries, needle, n - 1);
    lemma_token_hits(entries, needle, n - 1);
    if j < n - 1 {
        lemma_token_hits_contains(entries, needle, n - 1, j);
        if prev.contains(j) {
            let k = choose|k: int| 0 <= k < prev.len() && prev[k] == j;
            assert(cur[k] == j);
        }
        if cur.contains(j) {
            let k = choose|k: int| 0 <= k < cur.len() && cur[k] == j;
            if k < prev.len() {
                assert(prev[k] == j);
            } else {
                assert(cur[k] == n - 1);
            }
        }
    } else {
        if has_token(entries[j], needle) {
            assert(cur[cur.len() - 1] == j);
        }
        if cur.contains(j) {
            let k = choose|k: int| 0 <= k < cur.len() && cur[k] == j;
            if k < prev.len() {
                assert(prev[k] < n - 1);
            }
        }
    }
}

/// A token query finds an entry exactly when one of the entry's tokens,
/// lower-cased, equals the trimmed query lower-cased: a token that merely
/// contains the query does not count.
pub proof fn law_token_query_matches_whole_tokens(
    entries: Seq<CatalogEntry>,
    token: Seq<char>,
    j: int,
)
    requires
        0 <= j < entries.len(),
    ensures
        spec_find_by_token(entries, token).contains(j) <==> exists|i: int|
            0 <= i < entries[j].tokens@.len() && lower(#[trigger] entries[j].tokens@[i]@) == lower(
                trim(token),
            ),
{
    let needle = lower(trim(token));
    lemma_token_hits_contains(entries, needle, entries.len() as int, j);
    lemma_lower_idempotent(trim(token));
}

} // verus!

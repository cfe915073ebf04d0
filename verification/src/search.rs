//! Relevance scoring of catalog entries against a search query.
use vstd::prelude::*;

use crate::catalog::{CatalogEntry, CatalogSection};
use crate::text::{
    Strip, chars_eq, chars_of, contains, contains_chars, lemma_lex_asymmetric,
    lemma_lex_irreflexive, lemma_lex_total, lemma_lex_transitive, lex_lt, lower, split_words,
    to_lower, trim, trim_by, trim_k, views, words,
};

verus! {

/// A word of the query with the characters that cannot bound a term
/// removed from both ends, lower-cased.
pub open spec fn normalize_term(w: Seq<char>) -> Seq<char> {
    lower(trim_k(Strip::NonTermChar, w))
}

/// The normalized words that are not empty, in order.
pub open spec fn normalized_terms(ws: Seq<Seq<char>>) -> Seq<Seq<char>>
    decreases ws.len(),
{
    if ws.len() == 0 {
        seq![]
    } else {
        let r = normalized_terms(ws.drop_last());
        let t = normalize_term(ws.last());
        if t.len() == 0 {
            r
        } else {
            r.push(t)
        }
    }
}

/// The search terms of a query.
pub open spec fn spec_search_terms(query: Seq<char>) -> Seq<Seq<char>> {
    normalized_terms(words(query))
}

/// The lower-cased texts of an entry that a search looks at.
pub open spec fn low_id(e: CatalogEntry) -> Seq<char> {
    lower(e.id@)
}

pub open spec fn low_title(e: CatalogEntry) -> Seq<char> {
    lower(e.title@)
}

pub open spec fn low_summary(e: CatalogEntry) -> Seq<char> {
    lower(e.summary@)
}

pub open spec fn low_syntax(e: CatalogEntry) -> Seq<char> {
    match e.spec_syntax_block() {
        Some(s) => lower(s),
        None => seq![],
    }
}

pub open spec fn low_tokens(e: CatalogEntry) -> Seq<Seq<char>> {
    e.token_views().map_values(|t: Seq<char>| lower(t))
}

/// Some lower-cased token of `e` contains `term`.
pub open spec fn token_contains(e: CatalogEntry, term: Seq<char>) -> bool {
    exists|i: int| 0 <= i < low_tokens(e).len() && contains(#[trigger] low_tokens(e)[i], term)
}

/// Points for how the whole lower-cased query matches an entry.
pub open spec fn needle_points(e: CatalogEntry, needle: Seq<char>) -> int {
    (if low_id(e) == needle { 180int } else { 0 }) + (if low_tokens(e).contains(needle) {
        160int
    } else {
        0
    }) + (if contains(low_title(e), needle) { 80int } else { 0 }) + (if contains(
        low_summary(e),
        needle,
    ) {
        50int
    } else {
        0
    }) + (if low_syntax(e).len() > 0 && contains(low_syntax(e), needle) {
        45int
    } else {
        0
    })
}

/// Points for one search term.
pub open spec fn term_points(e: CatalogEntry, term: Seq<char>) -> int {
    (if low_id(e) == term {
        70int
    } else if contains(low_id(e), term) {
        18int
    } else {
        0
    }) + (if low_tokens(e).contains(term) {
        90int
    } else if token_contains(e, term) {
        30int
    } else {
        0
    }) + (if contains(low_title(e), term) { 28int } else { 0 }) + (if contains(
        low_summary(e),
        term,
    ) {
        20int
    } else {
        0
    }) + (if low_syntax(e).len() > 0 && contains(low_syntax(e), term) {
        18int
    } else {
        0
    })
}

/// Whether one search term matches anything in the entry.
pub open spec fn term_hit(e: CatalogEntry, term: Seq<char>) -> bool {
    ||| low_id(e) == term
    ||| contains(low_id(e), term)
    ||| low_tokens(e).contains(term)
    ||| token_contains(e, term)
    ||| contains(low_title(e), term)
    ||| contains(low_summary(e), term)
    ||| (low_syntax(e).len() > 0 && contains(low_syntax(e), term))
}

pub open spec fn sum_term_points(e: CatalogEntry, terms: Seq<Seq<char>>) -> int
    decreases terms.len(),
{
    if terms.len() == 0 {
        0
    } else {
        sum_term_points(e, terms.drop_last()) + term_points(e, terms.last())
    }
}

/// How many of the terms match the entry.
pub open spec fn count_term_hits(e: CatalogEntry, terms: Seq<Seq<char>>) -> int
    decreases terms.len(),
{
    if terms.len() == 0 {
        0
    } else {
        count_term_hits(e, terms.drop_last()) + (if term_hit(e, terms.last()) {
            1int
        } else {
            0
        })
    }
}

/// The relevance score of an entry: the points of the whole query, the
/// points of each term, and 8 points per matched term when more than one
/// term matched.
pub open spec fn score_of(e: CatalogEntry, needle: Seq<char>, terms: Seq<Seq<char>>) -> int {
    let hits = count_term_hits(e, terms);
    needle_points(e, needle) + sum_term_points(e, terms) + (if hits > 1 {
        hits * 8
    } else {
        0
    })
}

/// The search terms of a query: its whitespace-separated words, trimmed of
/// characters that cannot bound a term, lower-cased, empty ones dropped.
pub fn search_terms(query: &Vec<char>) -> (res: Vec<Vec<char>>)
    ensures
        views(res@) == spec_search_terms(query@),
{
    let ws = split_words(query);
    let mut res: Vec<Vec<char>> = Vec::new();
    let mut i: usize = 0;
    while i < ws.len()
        invariant
            0 <= i <= ws.len(),
            views(res@) == normalized_terms(views(ws@).take(i as int)),
        decreases ws.len() - i,
    {
        assert(views(ws@).take(i as int + 1).drop_last() =~= views(ws@).take(i as int));
        let t = normalize_search_term(&ws[i]);
        match t {
            Some(t) => {
                let ghost before = res@;
                res.push(t);
                assert(views(res@) =~= views(before).push(t@));
            },
            None => {},
        }
        i = i + 1;
    }
    assert(views(ws@).take(ws.len() as int) =~= views(ws@));
    res
}

/// One word normalized as a search term; `None` when nothing is left.
pub fn normalize_search_term(term: &Vec<char>) -> (res: Option<Vec<char>>)
    ensures
        match res {
            Some(t) => t@ == normalize_term(term@) && t@.len() > 0,
            None => normalize_term(term@).len() == 0,
        },
{
    let trimmed = trim_by(Strip::NonTermChar, term);
    let low = to_lower(&trimmed);
    if low.len() == 0 {
        None
    } else {
        Some(low)
    }
}

/// Whether some token equals `n`.
fn any_equal(toks: &Vec<Vec<char>>, n: &Vec<char>) -> (r: bool)
    ensures
        r == views(toks@).contains(n@),
{
    let mut i: usize = 0;
    while i < toks.len()
        invariant
            0 <= i <= toks.len(),
            forall|j: int| 0 <= j < i ==> views(toks@)[j] != n@,
        decreases toks.len() - i,
    {
        if chars_eq(&toks[i], n) {
            assert(views(toks@)[i as int] == n@);
            return true;
        }
        i = i + 1;
    }
    false
}

/// Whether some token contains `n`.
fn any_contains(toks: &Vec<Vec<char>>, n: &Vec<char>) -> (r: bool)
    ensures
        r == (exists|i: int| 0 <= i < toks@.len() && contains(#[trigger] views(toks@)[i], n@)),
{
    let mut i: usize = 0;
    while i < toks.len()
        invariant
            0 <= i <= toks.len(),
            forall|j: int| 0 <= j < i ==> !contains(#[trigger] views(toks@)[j], n@),
        decreases toks.len() - i,
    {
        if contains_chars(&toks[i], n) {
            assert(contains(views(toks@)[i as int], n@));
            return true;
        }
        i = i + 1;
    }
    false
}

/// The lower-cased texts of an entry, computed once for scoring.
struct LoweredEntry {
    id: Vec<char>,
    title: Vec<char>,
    summary: Vec<char>,
    syntax: Vec<char>,
    tokens: Vec<Vec<char>>,
}

impl LoweredEntry {
    spec fn describes(&self, e: CatalogEntry) -> bool {
        &&& self.id@ == low_id(e)
        &&& self.title@ == low_title(e)
        &&& self.summary@ == low_summary(e)
        &&& self.syntax@ == low_syntax(e)
        &&& views(self.tokens@) == low_tokens(e)
    }
}

fn lowered(entry: &CatalogEntry) -> (res: LoweredEntry)
    ensures
        res.describes(*entry),
{
    let id = to_lower(&chars_of(entry.id.as_str()));
    let title = to_lower(&chars_of(entry.title.as_str()));
    let summary = to_lower(&chars_of(entry.summary.as_str()));
    let syntax = match entry.syntax_block() {
        Some(s) => to_lower(&chars_of(s.as_str())),
        None => Vec::new(),
    };
    proof {
        if entry.spec_syntax_block() is None {
            assert(syntax@ =~= low_syntax(*entry));
        }
    }
    let mut tokens: Vec<Vec<char>> = Vec::new();
    let mut i: usize = 0;
    while i < entry.tokens.len()
        invariant
            0 <= i <= entry.tokens@.len(),
            views(tokens@) == low_tokens(*entry).take(i as int),
        decreases entry.tokens.len() - i,
    {
        let t = to_lower(&chars_of(entry.tokens[i].as_str()));
        let ghost before = tokens@;
        tokens.push(t);
        assert(views(tokens@) =~= views(before).push(t@));
        assert(low_tokens(*entry).take(i as int + 1) =~= low_tokens(*entry).take(i as int).push(
            low_tokens(*entry)[i as int],
        ));
        i = i + 1;
    }
    assert(low_tokens(*entry).take(entry.tokens@.len() as int) =~= low_tokens(*entry));
    LoweredEntry { id, title, summary, syntax, tokens }
}

/// Scores one entry: `(score, number of matched terms)`.
pub fn score_entry(entry: &CatalogEntry, needle: &Vec<char>, terms: &Vec<Vec<char>>) -> (res: (
    u128,
    usize,
))
    ensures
        res.0 == score_of(*entry, needle@, views(terms@)),
        res.1 == count_term_hits(*entry, views(terms@)),
{
    let low = lowered(entry);
    let ghost e = *entry;
    let ghost ts = views(terms@);
    let mut score: u128 = 0;
    if chars_eq(&low.id, needle) {
        score = score + 180;
    }
    if any_equal(&low.tokens, needle) {
        score = score + 160;
    }
    if contains_chars(&low.title, needle) {
        score = score + 80;
    }
    if contains_chars(&low.summary, needle) {
        score = score + 50;
    }
    if low.syntax.len() > 0 && contains_chars(&low.syntax, needle) {
        score = score + 45;
    }
    assert(score == needle_points(e, needle@));
    let mut matched: usize = 0;
    let mut i: usize = 0;
    while i < terms.len()
        invariant
            0 <= i <= terms.len(),
            low.describes(e),
            ts == views(terms@),
            matched <= i,
            score == needle_points(e, needle@) + sum_term_points(e, ts.take(i as int)),
            matched == count_term_hits(e, ts.take(i as int)),
            score <= 515 + 226 * (i as int),
        decreases terms.len() - i,
    {
        let term = &terms[i];
        let mut hit = false;
        let mut pts: u128 = 0;
        if chars_eq(&low.id, term) {
            pts = pts + 70;
            hit = true;
        } else if contains_chars(&low.id, term) {
            pts = pts + 18;
            hit = true;
        }
        if any_equal(&low.tokens, term) {
            pts = pts + 90;
            hit = true;
        } else if any_contains(&low.tokens, term) {
            pts = pts + 30;
            hit = true;
        }
        if contains_chars(&low.title, term) {
            pts = pts + 28;
            hit = true;
        }
        if contains_chars(&low.summary, term) {
            pts = pts + 20;
            hit = true;
        }
        if low.syntax.len() > 0 && contains_chars(&low.syntax, term) {
            pts = pts + 18;
            hit = true;
        }
        assert(ts[i as int] == term@);
        assert(pts == term_points(e, ts[i as int]));
        assert(hit == term_hit(e, ts[i as int]));
        assert(ts.take(i as int + 1).drop_last() =~= ts.take(i as int));
        score = score + pts;
        if hit {
            matched = matched + 1;
        }
        i = i + 1;
    }
    assert(ts.take(terms.len() as int) =~= ts);
    if matched > 1 {
        score = score + (matched as u128) * 8;
    }
    (score, matched)
}


// ---------------------------------------------------------------------------
// Ranking.
// ---------------------------------------------------------------------------

/// An entry belongs to the requested section, or no section was requested.
pub open spec fn section_ok(section: Option<CatalogSection>, e: CatalogEntry) -> bool {
    match section {
        Some(s) => s == e.section,
        None => true,
    }
}

/// The positions, in order, of the first `n` entries in the section.
pub open spec fn section_indices(
    entries: Seq<CatalogEntry>,
    section: Option<CatalogSection>,
    n: int,
) -> Seq<int>
    decreases n,
{
    if n <= 0 || n > entries.len() {
        seq![]
    } else if section_ok(section, entries[n - 1]) {
        section_indices(entries, section, n - 1).push(n - 1)
    } else {
        section_indices(entries, section, n - 1)
    }
}

/// An entry is in the section and scores above zero.
pub open spec fn qualifies(
    e: CatalogEntry,
    section: Option<CatalogSection>,
    needle: Seq<char>,
    terms: Seq<Seq<char>>,
) -> bool {
    section_ok(section, e) && score_of(e, needle, terms) > 0
}

/// The positions, in order, of the first `n` entries that qualify.
pub open spec fn qualified(
    entries: Seq<CatalogEntry>,
    section: Option<CatalogSection>,
    needle: Seq<char>,
    terms: Seq<Seq<char>>,
    n: int,
) -> Seq<int>
    decreases n,
{
    if n <= 0 || n > entries.len() {
        seq![]
    } else if qualifies(entries[n - 1], section, needle, terms) {
        qualified(entries, section, needle, terms, n - 1).push(n - 1)
    } else {
        qualified(entries, section, needle, terms, n - 1)
    }
}

/// The order of search results: higher score first, then more matched
/// terms, then smaller id, then earlier position.
pub open spec fn key_before(
    s1: int,
    m1: int,
    id1: Seq<char>,
    i1: int,
    s2: int,
    m2: int,
    id2: Seq<char>,
    i2: int,
) -> bool {
    ||| s1 > s2
    ||| (s1 == s2 && m1 > m2)
    ||| (s1 == s2 && m1 == m2 && lex_lt(id1, id2))
    ||| (s1 == s2 && m1 == m2 && id1 == id2 && i1 < i2)
}

/// Entry `i` comes before entry `j` in the results.
pub open spec fn ranks_before(
    entries: Seq<CatalogEntry>,
    needle: Seq<char>,
    terms: Seq<Seq<char>>,
    i: int,
    j: int,
) -> bool {
    key_before(
        score_of(entries[i], needle, terms),
        count_term_hits(entries[i], terms),
        entries[i].id@,
        i,
        score_of(entries[j], needle, terms),
        count_term_hits(entries[j], terms),
        entries[j].id@,
        j,
    )
}

pub open spec fn min_int(a: int, b: int) -> int {
    if a <= b {
        a
    } else {
        b
    }
}

/// `idx` is the result of a search, as positions of entries. A blank query
/// gives the first `limit` entries of the section in catalog order. Any
/// other query gives the `limit` best-ranked qualifying entries, best first.
pub open spec fn is_ranked_search(
    entries: Seq<CatalogEntry>,
    query: Seq<char>,
    section: Option<CatalogSection>,
    limit: int,
    idx: Seq<int>,
) -> bool {
    let needle = lower(trim(query));
    if needle.len() == 0 {
        let all = section_indices(entries, section, entries.len() as int);
        idx == all.take(min_int(limit, all.len() as int))
    } else {
        let terms = spec_search_terms(query);
        let q = qualified(entries, section, needle, terms, entries.len() as int);
        &&& idx.len() == min_int(limit, q.len() as int)
        &&& forall|k: int| 0 <= k < idx.len() ==> q.contains(#[trigger] idx[k])
        &&& forall|a: int, b: int|
            0 <= a < b < idx.len() ==> ranks_before(entries, needle, terms, #[trigger] idx[a], #[trigger] idx[b])
        &&& forall|j: int, k: int|
            #![trigger q.contains(j), idx[k]]
            q.contains(j) && !idx.contains(j) && 0 <= k < idx.len() ==> ranks_before(
                entries,
                needle,
                terms,
                idx[k],
                j,
            )
    }
}

pub proof fn lemma_key_transitive(
    s1: int,
    m1: int,
    id1: Seq<char>,
    i1: int,
    s2: int,
    m2: int,
    id2: Seq<char>,
    i2: int,
    s3: int,
    m3: int,
    id3: Seq<char>,
    i3: int,
)
    requires
        key_before(s1, m1, id1, i1, s2, m2, id2, i2),
        key_before(s2, m2, id2, i2, s3, m3, id3, i3),
    ensures
        key_before(s1, m1, id1, i1, s3, m3, id3, i3),
{
    if s1 == s2 && s2 == s3 && m1 == m2 && m2 == m3 {
        if lex_lt(id1, id2) && lex_lt(id2, id3) {
            lemma_lex_transitive(id1, id2, id3, 0);
        }
    }
}

pub proof fn lemma_key_total(
    s1: int,
    m1: int,
    id1: Seq<char>,
    i1: int,
    s2: int,
    m2: int,
    id2: Seq<char>,
    i2: int,
)
    requires
        i1 != i2,
    ensures
        key_before(s1, m1, id1, i1, s2, m2, id2, i2) || key_before(s2, m2, id2, i2, s1, m1, id1, i1),
{
    if id1 != id2 {
        assert(id1.take(0) =~= id2.take(0));
        lemma_lex_total(id1, id2, 0);
    }
}

pub proof fn lemma_section_indices(entries: Seq<CatalogEntry>, section: Option<CatalogSection>, n: int)
    requires
        0 <= n <= entries.len(),
    ensures
        forall|k: int|
            0 <= k < section_indices(entries, section, n).len() ==> 0 <= #[trigger] section_indices(
                entries,
                section,
                n,
            )[k] < n && section_ok(section, entries[section_indices(entries, section, n)[k]]),
        forall|a: int, b: int|
            0 <= a < b < section_indices(entries, section, n).len() ==> #[trigger] section_indices(
                entries,
                section,
                n,
            )[a] < #[trigger] section_indices(entries, section, n)[b],
    decreases n,
{
    if n > 0 {
        lemma_section_indices(entries, section, n - 1);
        let prev = section_indices(entries, section, n - 1);
        let cur = section_indices(entries, section, n);
        assert forall|k: int| 0 <= k < cur.len() implies 0 <= #[trigger] cur[k] < n && section_ok(
            section,
            entries[cur[k]],
        ) by {
            if k < prev.len() {
                assert(cur[k] == prev[k]);
            }
        }
        assert forall|a: int, b: int| 0 <= a < b < cur.len() implies #[trigger] cur[a] < #[trigger] cur[b] by {
            if b < prev.len() {
                assert(cur[a] == prev[a] && cur[b] == prev[b]);
            } else {
                assert(cur[a] == prev[a]);
            }
        }
    }
}

pub proof fn lemma_qualified(
    entries: Seq<CatalogEntry>,
    section: Option<CatalogSection>,
    needle: Seq<char>,
    terms: Seq<Seq<char>>,
    n: int,
)
    requires
        0 <= n <= entries.len(),
    ensures
        forall|k: int|
            0 <= k < qualified(entries, section, needle, terms, n).len() ==> 0
                <= #[trigger] qualified(entries, section, needle, terms, n)[k] < n && qualifies(
                entries[qualified(entries, section, needle, terms, n)[k]],
                section,
                needle,
                terms,
            ),
    decreases n,
{
    if n > 0 {
        lemma_qualified(entries, section, needle, terms, n - 1);
        let prev = qualified(entries, section, needle, terms, n - 1);
        let cur = qualified(entries, section, needle, terms, n);
        assert forall|k: int| 0 <= k < cur.len() implies 0 <= #[trigger] cur[k] < n && qualifies(
            entries[cur[k]],
            section,
            needle,
            terms,
        ) by {
            if k < prev.len() {
                assert(cur[k] == prev[k]);
            }
        }
    }
}

/// No entry ranks before itself.
pub proof fn lemma_ranks_irreflexive(
    entries: Seq<CatalogEntry>,
    needle: Seq<char>,
    terms: Seq<Seq<char>>,
    i: int,
)
    ensures
        !ranks_before(entries, needle, terms, i, i),
{
    lemma_lex_irreflexive(entries[i].id@, 0);
}

/// Of two entries, at most one ranks before the other.
pub proof fn lemma_ranks_asymmetric(
    entries: Seq<CatalogEntry>,
    needle: Seq<char>,
    terms: Seq<Seq<char>>,
    i: int,
    j: int,
)
    ensures
        ranks_before(entries, needle, terms, i, j) ==> !ranks_before(entries, needle, terms, j, i),
{
    if ranks_before(entries, needle, terms, i, j) {
        let a = entries[i].id@;
        let b = entries[j].id@;
        if lex_lt(a, b) {
            lemma_lex_asymmetric(a, b, 0);
        }
        if lex_lt(b, a) {
            lemma_lex_asymmetric(b, a, 0);
        }
    }
}

/// A search lists at most `limit` entries, each a distinct entry of the
/// catalog in the requested section.
pub proof fn law_search_results_bounded(
    entries: Seq<CatalogEntry>,
    query: Seq<char>,
    section: Option<CatalogSection>,
    limit: int,
    idx: Seq<int>,
)
    requires
        0 <= limit,
        is_ranked_search(entries, query, section, limit, idx),
    ensures
        idx.len() <= limit,
        forall|k: int|
            0 <= k < idx.len() ==> 0 <= #[trigger] idx[k] < entries.len() && section_ok(
                section,
                entries[idx[k]],
            ),
        forall|a: int, b: int| 0 <= a < b < idx.len() ==> #[trigger] idx[a] != #[trigger] idx[b],
{
    let needle = lower(trim(query));
    let n = entries.len() as int;
    if needle.len() == 0 {
        lemma_section_indices(entries, section, n);
        let all = section_indices(entries, section, n);
        assert forall|k: int| 0 <= k < idx.len() implies 0 <= #[trigger] idx[k] < entries.len()
            && section_ok(section, entries[idx[k]]) by {
            assert(idx[k] == all[k]);
        }
        assert forall|a: int, b: int| 0 <= a < b < idx.len() implies #[trigger] idx[a]
            != #[trigger] idx[b] by {
            assert(idx[a] == all[a] && idx[b] == all[b]);
        }
    } else {
        let terms = spec_search_terms(query);
        lemma_qualified(entries, section, needle, terms, n);
        let q = qualified(entries, section, needle, terms, n);
        assert forall|k: int| 0 <= k < idx.len() implies 0 <= #[trigger] idx[k] < entries.len()
            && section_ok(section, entries[idx[k]]) by {
            assert(q.contains(idx[k]));
            let p = choose|p: int| 0 <= p < q.len() && q[p] == idx[k];
            assert(q[p] == idx[k]);
        }
        assert forall|a: int, b: int| 0 <= a < b < idx.len() implies #[trigger] idx[a]
            != #[trigger] idx[b] by {
            lemma_ranks_irreflexive(entries, needle, terms, idx[a]);
        }
    }
}

/// The `j`-th results of two searches that differ only by one in their
/// limit agree, given that all earlier results agree.
proof fn lemma_next_result_agrees(
    entries: Seq<CatalogEntry>,
    needle: Seq<char>,
    terms: Seq<Seq<char>>,
    q: Seq<int>,
    a: Seq<int>,
    b: Seq<int>,
    j: int,
)
    requires
        0 <= j < a.len() <= b.len(),
        forall|m: int| 0 <= m < j ==> a[m] == b[m],
        forall|k: int| 0 <= k < a.len() ==> q.contains(#[trigger] a[k]),
        forall|k: int| 0 <= k < b.len() ==> q.contains(#[trigger] b[k]),
        forall|x: int, y: int|
            0 <= x < y < a.len() ==> ranks_before(entries, needle, terms, #[trigger] a[x], #[trigger] a[y]),
        forall|x: int, y: int|
            0 <= x < y < b.len() ==> ranks_before(entries, needle, terms, #[trigger] b[x], #[trigger] b[y]),
        forall|i: int, k: int|
            #![trigger q.contains(i), a[k]]
            q.contains(i) && !a.contains(i) && 0 <= k < a.len() ==> ranks_before(entries, needle, terms, a[k], i),
        forall|i: int, k: int|
            #![trigger q.contains(i), b[k]]
            q.contains(i) && !b.contains(i) && 0 <= k < b.len() ==> ranks_before(entries, needle, terms, b[k], i),
    ensures
        a[j] == b[j],
{
    let x = a[j];
    let y = b[j];
    if x != y {
        assert(q.contains(x));
        assert(q.contains(y));
        lemma_ranks_asymmetric(entries, needle, terms, x, y);
        lemma_ranks_asymmetric(entries, needle, terms, y, x);
        // `y` ranks before `x`.
        if b.contains(x) {
            let p = choose|p: int| 0 <= p < b.len() && b[p] == x;
            if p < j {
                assert(a[p] == x);
                lemma_ranks_irreflexive(entries, needle, terms, x);
                assert(false);
            }
            assert(p > j);
            assert(ranks_before(entries, needle, terms, b[j], b[p]));
        } else {
            assert(ranks_before(entries, needle, terms, b[j], x));
        }
        assert(ranks_before(entries, needle, terms, y, x));
        // `x` ranks before `y`.
        if a.contains(y) {
            let r = choose|r: int| 0 <= r < a.len() && a[r] == y;
            if r < j {
                assert(b[r] == y);
                lemma_ranks_irreflexive(entries, needle, terms, y);
                assert(false);
            }
            assert(r > j);
            assert(ranks_before(entries, needle, terms, a[j], a[r]));
        } else {
            assert(ranks_before(entries, needle, terms, a[j], y));
        }
        assert(false);
    }
}

proof fn lemma_results_agree(
    entries: Seq<CatalogEntry>,
    needle: Seq<char>,
    terms: Seq<Seq<char>>,
    q: Seq<int>,
    a: Seq<int>,
    b: Seq<int>,
    j: int,
)
    requires
        0 <= j <= a.len() <= b.len(),
        forall|k: int| 0 <= k < a.len() ==> q.contains(#[trigger] a[k]),
        forall|k: int| 0 <= k < b.len() ==> q.contains(#[trigger] b[k]),
        forall|x: int, y: int|
            0 <= x < y < a.len() ==> ranks_before(entries, needle, terms, #[trigger] a[x], #[trigger] a[y]),
        forall|x: int, y: int|
            0 <= x < y < b.len() ==> ranks_before(entries, needle, terms, #[trigger] b[x], #[trigger] b[y]),
        forall|i: int, k: int|
            #![trigger q.contains(i), a[k]]
            q.contains(i) && !a.contains(i) && 0 <= k < a.len() ==> ranks_before(entries, needle, terms, a[k], i),
        forall|i: int, k: int|
            #![trigger q.contains(i), b[k]]
            q.contains(i) && !b.contains(i) && 0 <= k < b.len() ==> ranks_before(entries, needle, terms, b[k], i),
    ensures
        forall|m: int| 0 <= m < j ==> a[m] == b[m],
    decreases j,
{
    if j > 0 {
        lemma_results_agree(entries, needle, terms, q, a, b, j - 1);
        lemma_next_result_agrees(entries, needle, terms, q, a, b, j - 1);
    }
}

/// Raising the limit of a search by one only appends results: the results
/// under the smaller limit are the first results under the larger one, and
/// at most one more follows.
pub proof fn law_raising_limit_appends(
    entries: Seq<CatalogEntry>,
    query: Seq<char>,
    section: Option<CatalogSection>,
    limit: int,
    a: Seq<int>,
    b: Seq<int>,
)
    requires
        0 <= limit,
        is_ranked_search(entries, query, section, limit, a),
        is_ranked_search(entries, query, section, limit + 1, b),
    ensures
        a == b.take(a.len() as int),
        b.len() <= a.len() + 1,
{
    let needle = lower(trim(query));
    if needle.len() == 0 {
        let all = section_indices(entries, section, entries.len() as int);
        assert(a =~= b.take(a.len() as int));
    } else {
        let terms = spec_search_terms(query);
        let q = qualified(entries, section, needle, terms, entries.len() as int);
        lemma_results_agree(entries, needle, terms, q, a, b, a.len() as int);
        assert(a =~= b.take(a.len() as int));
    }
}

proof fn lemma_term_sums_nonneg(e: CatalogEntry, terms: Seq<Seq<char>>)
    ensures
        sum_term_points(e, terms) >= 0,
        count_term_hits(e, terms) >= 0,
    decreases terms.len(),
{
    if terms.len() > 0 {
        lemma_term_sums_nonneg(e, terms.drop_last());
    }
}

proof fn lemma_qualified_contains(
    entries: Seq<CatalogEntry>,
    section: Option<CatalogSection>,
    needle: Seq<char>,
    terms: Seq<Seq<char>>,
    n: int,
    j: int,
)
    requires
        0 <= j < n <= entries.len(),
        qualifies(entries[j], section, needle, terms),
    ensures
        qualified(entries, section, needle, terms, n).contains(j),
    decreases n,
{
    let q = qualified(entries, section, needle, terms, n);
    if j == n - 1 {
        assert(q[q.len() - 1] == j);
    } else {
        lemma_qualified_contains(entries, section, needle, terms, n - 1, j);
        let prev = qualified(entries, section, needle, terms, n - 1);
        let k = choose|k: int| 0 <= k < prev.len() && prev[k] == j;
        assert(q[k] == j);
    }
}

/// Searching for an entry's own id finds it: an entry of the section whose
/// lower-cased id equals the trimmed, lower-cased query scores at least
/// 180, so the search lists something (with a limit of at least one), and
/// each listed entry scores at least as much as it unless it is listed
/// itself.
pub proof fn law_search_finds_entry_by_id(
    entries: Seq<CatalogEntry>,
    query: Seq<char>,
    section: Option<CatalogSection>,
    limit: int,
    idx: Seq<int>,
    j: int,
)
    requires
        0 <= j < entries.len(),
        section_ok(section, entries[j]),
        limit >= 1,
        entries[j].id@.len() > 0,
        lower(trim(query)) == lower(entries[j].id@),
        is_ranked_search(entries, query, section, limit, idx),
    ensures
        score_of(entries[j], lower(trim(query)), spec_search_terms(query)) >= 180,
        idx.len() >= 1,
        idx.contains(j) || forall|k: int|
            0 <= k < idx.len() ==> score_of(entries[#[trigger] idx[k]], lower(trim(query)), spec_search_terms(query))
                >= score_of(entries[j], lower(trim(query)), spec_search_terms(query)),
{
    let needle = lower(trim(query));
    let terms = spec_search_terms(query);
    let e = entries[j];
    assert(needle.len() == entries[j].id@.len());
    lemma_term_sums_nonneg(e, terms);
    assert(low_id(e) == needle);
    assert(needle_points(e, needle) >= 180);
    assert(score_of(e, needle, terms) >= 180);
    let n = entries.len() as int;
    lemma_qualified_contains(entries, section, needle, terms, n, j);
    let q = qualified(entries, section, needle, terms, n);
    assert(q.len() >= 1) by {
        let k = choose|k: int| 0 <= k < q.len() && q[k] == j;
    }
    if !idx.contains(j) {
        assert forall|k: int| 0 <= k < idx.len() implies score_of(entries[#[trigger] idx[k]], needle, terms)
            >= score_of(e, needle, terms) by {
            assert(ranks_before(entries, needle, terms, idx[k], j));
        }
    }
}

} // verus!

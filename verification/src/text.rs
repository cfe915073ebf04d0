//! Character-level text operations with their mathematical meaning.
//!
//! Every string is modelled by its view, a `Seq<char>`. The functions here
//! give the meaning of the standard string operations that the catalog logic
//! relies on (trimming, line splitting, splitting on whitespace, ASCII case
//! folding, substring search, lexicographic order, decimal rendering) and
//! verified executable versions of them over `Vec<char>`.
use vstd::prelude::*;

verus! {

// ---------------------------------------------------------------------------
// Bridges between `String`/`&str` and character vectors.
// ---------------------------------------------------------------------------

/// Appends one character to a string (`String::push`).
#[verifier::external_body]
pub(crate) fn push_char(s: &mut String, c: char)
    ensures
        final(s)@ == old(s)@.push(c),
{
    s.push(c);
}

/// Appends a string slice to a string.
pub(crate) fn push_str(s: &mut String, t: &str)
    ensures
        final(s)@ == old(s)@ + t@,
{
    s.append(t);
}

/// The characters of a string slice, in order.
pub fn chars_of(s: &str) -> (res: Vec<char>)
    ensures
        res@ == s@,
{
    let mut res: Vec<char> = Vec::new();
    for c in it: s.chars()
        invariant
            res@ == it.seq().take(it.index() as int),
    {
        res.push(c);
    }
    res
}

/// Appends the characters of `v` to `s`.
pub fn push_chars(s: &mut String, v: &Vec<char>)
    ensures
        final(s)@ == old(s)@ + v@,
{
    let mut i: usize = 0;
    while i < v.len()
        invariant
            0 <= i <= v.len(),
            s@ == old(s)@ + v@.take(i as int),
        decreases v.len() - i,
    {
        push_char(s, v[i]);
        assert(v@.take(i as int + 1) =~= v@.take(i as int).push(v@[i as int]));
        i = i + 1;
    }
    assert(v@.take(v.len() as int) =~= v@);
}

/// A string holding exactly the characters of `v`.
pub fn string_of(v: &Vec<char>) -> (res: String)
    ensures
        res@ == v@,
{
    let mut s = String::new();
    push_chars(&mut s, v);
    s
}

// ---------------------------------------------------------------------------
// Character classes.
// ---------------------------------------------------------------------------

/// The Unicode `White_Space` property, the set that `char::is_whitespace`
/// tests and that `str::trim`, `str::split_whitespace` and friends use.
pub open spec fn is_ws(c: char) -> bool {
    let u = c as int;
    ||| 0x9 <= u <= 0xD
    ||| u == 0x20
    ||| u == 0x85
    ||| u == 0xA0
    ||| u == 0x1680
    ||| 0x2000 <= u <= 0x200A
    ||| u == 0x2028
    ||| u == 0x2029
    ||| u == 0x202F
    ||| u == 0x205F
    ||| u == 0x3000
}

/// Whether `c` has the Unicode `White_Space` property.
pub fn is_whitespace(c: char) -> (r: bool)
    ensures
        r == is_ws(c),
{
    let u = c as u32;
    (0x9 <= u && u <= 0xD) || u == 0x20 || u == 0x85 || u == 0xA0 || u == 0x1680 || (0x2000 <= u
        && u <= 0x200A) || u == 0x2028 || u == 0x2029 || u == 0x202F || u == 0x205F || u == 0x3000
}

/// ASCII lower-casing of one character (`char::to_ascii_lowercase`).
pub open spec fn lower_char(c: char) -> char {
    if 'A' <= c && c <= 'Z' {
        ((c as int) + 32) as char
    } else {
        c
    }
}

/// ASCII lower-casing of a text (`str::to_ascii_lowercase`).
pub open spec fn lower(s: Seq<char>) -> Seq<char> {
    s.map_values(|c: char| lower_char(c))
}

/// Whether `c` is an ASCII letter or digit.
pub open spec fn is_ascii_alnum(c: char) -> bool {
    ||| 'a' <= c && c <= 'z'
    ||| 'A' <= c && c <= 'Z'
    ||| '0' <= c && c <= '9'
}

pub fn lower_char_exec(c: char) -> (r: char)
    ensures
        r == lower_char(c),
{
    if 'A' <= c && c <= 'Z' {
        let u = (c as u32) + 32;
        let b = u as u8;
        let r = b as char;
        assert(r == lower_char(c)) by {
            assert((c as int) + 32 < 256);
        }
        r
    } else {
        c
    }
}

/// ASCII lower-casing of a character vector.
pub fn to_lower(s: &Vec<char>) -> (res: Vec<char>)
    ensures
        res@ == lower(s@),
{
    let mut res: Vec<char> = Vec::new();
    let mut i: usize = 0;
    while i < s.len()
        invariant
            0 <= i <= s.len(),
            res@ == lower(s@.take(i as int)),
        decreases s.len() - i,
    {
        let c = lower_char_exec(s[i]);
        res.push(c);
        assert(lower(s@.take(i as int + 1)) =~= lower(s@.take(i as int)).push(lower_char(s@[i as int])));
        i = i + 1;
    }
    assert(s@.take(s.len() as int) =~= s@);
    res
}


// ---------------------------------------------------------------------------
// Skipping runs of characters, trimming.
// ---------------------------------------------------------------------------

/// Which characters a skip or a trim passes over.
#[derive(Clone, Copy, PartialEq, Eq, Debug)]
pub enum Strip {
    /// Unicode whitespace.
    Whitespace,
    /// Anything that is not whitespace.
    NonWhitespace,
    /// Anything that cannot occur at the edge of a search term: all but
    /// ASCII letters and digits and `. _ $ ? ! < >`.
    NonTermChar,
}

/// The characters that a search term may start or end with.
pub open spec fn is_term_char(c: char) -> bool {
    is_ascii_alnum(c) || c == '.' || c == '_' || c == '$' || c == '?' || c == '!' || c == '<'
        || c == '>'
}

pub open spec fn strips(k: Strip, c: char) -> bool {
    match k {
        Strip::Whitespace => is_ws(c),
        Strip::NonWhitespace => !is_ws(c),
        Strip::NonTermChar => !is_term_char(c),
    }
}

pub fn strips_exec(k: Strip, c: char) -> (r: bool)
    ensures
        r == strips(k, c),
{
    match k {
        Strip::Whitespace => is_whitespace(c),
        Strip::NonWhitespace => !is_whitespace(c),
        Strip::NonTermChar => {
            let alnum = ('a' <= c && c <= 'z') || ('A' <= c && c <= 'Z') || ('0' <= c && c <= '9');
            !(alnum || c == '.' || c == '_' || c == '$' || c == '?' || c == '!' || c == '<' || c
                == '>')
        },
    }
}

/// The first position at or after `i` whose character `k` does not pass over.
pub open spec fn skip_fwd(k: Strip, s: Seq<char>, i: int) -> int
    decreases s.len() - i,
{
    if 0 <= i < s.len() && strips(k, s[i]) {
        skip_fwd(k, s, i + 1)
    } else {
        i
    }
}

/// The end of `s.take(j)` once the characters that `k` passes over are
/// removed from its end.
pub open spec fn skip_back(k: Strip, s: Seq<char>, j: int) -> int
    decreases j,
{
    if 0 < j <= s.len() && strips(k, s[j - 1]) {
        skip_back(k, s, j - 1)
    } else {
        j
    }
}

pub proof fn lemma_skip_fwd(k: Strip, s: Seq<char>, i: int)
    requires
        0 <= i <= s.len(),
    ensures
        i <= skip_fwd(k, s, i) <= s.len(),
        skip_fwd(k, s, i) < s.len() ==> !strips(k, s[skip_fwd(k, s, i)]),
        forall|j: int| i <= j < skip_fwd(k, s, i) ==> strips(k, #[trigger] s[j]),
    decreases s.len() - i,
{
    if i < s.len() && strips(k, s[i]) {
        lemma_skip_fwd(k, s, i + 1);
    }
}

pub proof fn lemma_skip_back(k: Strip, s: Seq<char>, j: int)
    requires
        0 <= j <= s.len(),
    ensures
        0 <= skip_back(k, s, j) <= j,
        skip_back(k, s, j) > 0 ==> !strips(k, s[skip_back(k, s, j) - 1]),
        forall|m: int| skip_back(k, s, j) <= m < j ==> strips(k, #[trigger] s[m]),
    decreases j,
{
    if 0 < j && strips(k, s[j - 1]) {
        lemma_skip_back(k, s, j - 1);
    }
}

/// `s` without the characters that `k` passes over at its start
/// (`str::trim_start`, `str::trim_start_matches`).
pub open spec fn trim_start_k(k: Strip, s: Seq<char>) -> Seq<char> {
    s.skip(skip_fwd(k, s, 0))
}

/// `s` without the characters that `k` passes over at its end.
pub open spec fn trim_end_k(k: Strip, s: Seq<char>) -> Seq<char> {
    s.take(skip_back(k, s, s.len() as int))
}

/// `s` without the characters that `k` passes over at either end
/// (`str::trim`, `str::trim_matches`).
pub open spec fn trim_k(k: Strip, s: Seq<char>) -> Seq<char> {
    trim_end_k(k, trim_start_k(k, s))
}

/// `str::trim`: `s` without leading and trailing Unicode whitespace.
pub open spec fn trim(s: Seq<char>) -> Seq<char> {
    trim_k(Strip::Whitespace, s)
}

/// `v[a..b]` as a new vector.
pub fn slice_chars(v: &Vec<char>, a: usize, b: usize) -> (res: Vec<char>)
    requires
        a <= b <= v.len(),
    ensures
        res@ == v@.subrange(a as int, b as int),
{
    let mut res: Vec<char> = Vec::new();
    let mut i: usize = a;
    while i < b
        invariant
            a <= i <= b <= v.len(),
            res@ == v@.subrange(a as int, i as int),
        decreases b - i,
    {
        res.push(v[i]);
        assert(v@.subrange(a as int, i as int + 1) =~= v@.subrange(a as int, i as int).push(
            v@[i as int],
        ));
        i = i + 1;
    }
    res
}

/// The position at which a forward skip from `i` stops.
pub fn skip_forward(k: Strip, s: &Vec<char>, i: usize) -> (r: usize)
    requires
        i <= s.len(),
    ensures
        r == skip_fwd(k, s@, i as int),
{
    let mut j = i;
    while j < s.len() && strips_exec(k, s[j])
        invariant
            i <= j <= s.len(),
            skip_fwd(k, s@, i as int) == skip_fwd(k, s@, j as int),
        decreases s.len() - j,
    {
        j = j + 1;
    }
    j
}

/// The position at which a backward skip from `j` stops.
pub fn skip_backward(k: Strip, s: &Vec<char>, j: usize) -> (r: usize)
    requires
        j <= s.len(),
    ensures
        r == skip_back(k, s@, j as int),
{
    let mut m = j;
    while m > 0 && strips_exec(k, s[m - 1])
        invariant
            m <= j <= s.len(),
            skip_back(k, s@, j as int) == skip_back(k, s@, m as int),
        decreases m,
    {
        m = m - 1;
    }
    m
}

/// Trimming by a character class.
pub fn trim_by(k: Strip, s: &Vec<char>) -> (res: Vec<char>)
    ensures
        res@ == trim_k(k, s@),
{
    let a = skip_forward(k, s, 0);
    proof {
        lemma_skip_fwd(k, s@, 0);
    }
    let t = slice_chars(s, a, s.len());
    assert(t@ == trim_start_k(k, s@));
    let b = skip_backward(k, &t, t.len());
    proof {
        lemma_skip_back(k, t@, t@.len() as int);
    }
    let res = slice_chars(&t, 0, b);
    assert(res@ =~= trim_end_k(k, t@));
    res
}

/// `str::trim` over characters.
pub fn trim_chars(s: &Vec<char>) -> (res: Vec<char>)
    ensures
        res@ == trim(s@),
{
    trim_by(Strip::Whitespace, s)
}

/// An optional text, trimmed, kept only when something is left
/// (`o.map(str::trim).filter(|v| !v.is_empty())`).
pub open spec fn nonblank_trim(o: Option<Seq<char>>) -> Option<Seq<char>> {
    match o {
        Some(s) => if trim(s).len() > 0 {
            Some(trim(s))
        } else {
            None
        },
        None => None,
    }
}

/// The view of an optional string slice.
pub open spec fn opt_str_view(o: Option<&str>) -> Option<Seq<char>> {
    match o {
        Some(s) => Some(s@),
        None => None,
    }
}

/// The trimmed text, unless nothing is left of it.
pub fn trimmed_nonblank(o: Option<&str>) -> (res: Option<String>)
    ensures
        match res {
            Some(t) => nonblank_trim(opt_str_view(o)) == Some(t@),
            None => nonblank_trim(opt_str_view(o)) is None,
        },
{
    match o {
        Some(s) => {
            let t = trim_chars(&chars_of(s));
            if t.len() > 0 {
                Some(string_of(&t))
            } else {
                None
            }
        },
        None => None,
    }
}

// ---------------------------------------------------------------------------
// Lines and joining.
// ---------------------------------------------------------------------------

/// The first position at or after `i` that holds `c`, or `s.len()`.
pub open spec fn find_from(s: Seq<char>, c: char, i: int) -> int
    decreases s.len() - i,
{
    if 0 <= i < s.len() && s[i] != c {
        find_from(s, c, i + 1)
    } else {
        i
    }
}

pub proof fn lemma_find_from(s: Seq<char>, c: char, i: int)
    requires
        0 <= i <= s.len(),
    ensures
        i <= find_from(s, c, i) <= s.len(),
        find_from(s, c, i) < s.len() ==> s[find_from(s, c, i)] == c,
        forall|j: int| i <= j < find_from(s, c, i) ==> #[trigger] s[j] != c,
    decreases s.len() - i,
{
    if i < s.len() && s[i] != c {
        lemma_find_from(s, c, i + 1);
    }
}

/// A line without the carriage return of a `\r\n` line ending.
pub open spec fn strip_cr(x: Seq<char>) -> Seq<char> {
    if x.len() > 0 && x.last() == '\r' {
        x.drop_last()
    } else {
        x
    }
}

/// The lines of `s` from position `pos` on, as `str::lines` yields them:
/// split after each `\n`, with the `\n` and a `\r` right before it removed;
/// a final line ending adds no empty line.
pub open spec fn lines_from(s: Seq<char>, pos: int) -> Seq<Seq<char>>
    decreases s.len() - pos,
{
    if pos < 0 || pos >= s.len() {
        seq![]
    } else {
        let k = find_from(s, '\n', pos);
        if k >= s.len() {
            seq![s.subrange(pos, s.len() as int)]
        } else {
            proof {
                lemma_find_from(s, '\n', pos);
            }
            seq![strip_cr(s.subrange(pos, k))] + lines_from(s, k + 1)
        }
    }
}

/// `str::lines`.
pub open spec fn lines(s: Seq<char>) -> Seq<Seq<char>> {
    lines_from(s, 0)
}

/// The text holds no line break.
pub open spec fn no_newline(s: Seq<char>) -> bool {
    forall|j: int| 0 <= j < s.len() ==> s[j] != '\n'
}

/// A trimmed text starts and ends with a character that is not whitespace,
/// and holds no line break if the text held none.
pub proof fn lemma_trim_shape(s: Seq<char>)
    ensures
        trim(s).len() > 0 ==> !is_ws(trim(s)[0]) && !is_ws(trim(s).last()),
        no_newline(s) ==> no_newline(trim(s)),
{
    let k = Strip::Whitespace;
    lemma_skip_fwd(k, s, 0);
    let a = skip_fwd(k, s, 0);
    let t1 = s.skip(a);
    lemma_skip_back(k, t1, t1.len() as int);
    let b = skip_back(k, t1, t1.len() as int);
    assert(trim(s) == t1.take(b));
    if b > 0 {
        assert(a < s.len());
        assert(t1[0] == s[a]);
    }
    if no_newline(s) {
        assert forall|j: int| 0 <= j < trim(s).len() implies trim(s)[j] != '\n' by {
            assert(trim(s)[j] == s[a + j]);
        }
    }
}

/// A text that starts and ends with a character that is not whitespace is
/// its own trim.
pub proof fn lemma_trim_fixed(s: Seq<char>)
    requires
        s.len() > 0,
        !is_ws(s[0]),
        !is_ws(s.last()),
    ensures
        trim(s) == s,
{
    let k = Strip::Whitespace;
    assert(skip_fwd(k, s, 0) == 0);
    assert(trim_start_k(k, s) =~= s);
    assert(skip_back(k, s, s.len() as int) == s.len());
    assert(s.take(s.len() as int) =~= s);
}

/// No line of a text holds a line break.
pub proof fn lemma_lines_no_newline(s: Seq<char>, pos: int)
    ensures
        forall|i: int| 0 <= i < lines_from(s, pos).len() ==> no_newline(#[trigger] lines_from(s, pos)[i]),
    decreases s.len() - pos,
{
    if 0 <= pos < s.len() {
        lemma_find_from(s, '\n', pos);
        let k = find_from(s, '\n', pos);
        if k < s.len() {
            lemma_lines_no_newline(s, k + 1);
            let rest = lines_from(s, k + 1);
            let first = strip_cr(s.subrange(pos, k));
            assert(lines_from(s, pos) == seq![first] + rest);
            assert(no_newline(first));
            assert forall|i: int| 0 <= i < lines_from(s, pos).len() implies no_newline(
                #[trigger] lines_from(s, pos)[i],
            ) by {
                if i > 0 {
                    assert(lines_from(s, pos)[i] == rest[i - 1]);
                }
            }
        } else {
            assert(no_newline(s.subrange(pos, s.len() as int)));
        }
    }
}

/// A search passes over a stretch that does not hold the character.
pub proof fn lemma_find_from_skip(s: Seq<char>, c: char, i: int, j: int)
    requires
        0 <= i <= j <= s.len(),
        forall|m: int| i <= m < j ==> s[m] != c,
    ensures
        find_from(s, c, i) == find_from(s, c, j),
    decreases j - i,
{
    if i < j {
        lemma_find_from_skip(s, c, i + 1, j);
    }
}

/// Searching a text that follows a prefix finds positions shifted by the
/// prefix's length.
pub proof fn lemma_find_from_shift(a: Seq<char>, q: Seq<char>, c: char, i: int)
    requires
        0 <= i <= q.len(),
    ensures
        find_from(a + q, c, a.len() + i) == a.len() + find_from(q, c, i),
    decreases q.len() - i,
{
    if i < q.len() && q[i] != c {
        assert((a + q)[a.len() + i] == q[i]);
        lemma_find_from_shift(a, q, c, i + 1);
    } else if i < q.len() {
        assert((a + q)[a.len() + i] == q[i]);
    }
}

/// The lines of a text that follows a prefix, from past the prefix on, are
/// the lines of that text.
pub proof fn lemma_lines_from_shift(a: Seq<char>, q: Seq<char>, i: int)
    requires
        0 <= i <= q.len(),
    ensures
        lines_from(a + q, a.len() + i) == lines_from(q, i),
    decreases q.len() - i,
{
    let s = a + q;
    if i < q.len() {
        lemma_find_from_shift(a, q, '\n', i);
        lemma_find_from(q, '\n', i);
        let k = find_from(q, '\n', i);
        if k < q.len() {
            lemma_lines_from_shift(a, q, k + 1);
            assert(s.subrange(a.len() + i, a.len() + k) =~= q.subrange(i, k));
        } else {
            assert(s.subrange(a.len() + i, s.len() as int) =~= q.subrange(i, q.len() as int));
        }
    }
}

/// A join of two or more parts is the first part, the separator, and the
/// join of the rest.
pub proof fn lemma_join_front(xs: Seq<Seq<char>>, sep: Seq<char>)
    requires
        xs.len() >= 2,
    ensures
        join(xs, sep) == xs[0] + sep + join(xs.drop_first(), sep),
    decreases xs.len(),
{
    if xs.len() == 2 {
        assert(xs.drop_last() =~= seq![xs[0]]);
        assert(xs.drop_first() =~= seq![xs[1]]);
        assert(join(xs.drop_first(), sep) == xs[1]);
        assert(join(xs.drop_last(), sep) == xs[0]);
    } else {
        let init = xs.drop_last();
        let tail = xs.drop_first();
        lemma_join_front(init, sep);
        assert(init.drop_first() =~= tail.drop_last());
        assert(init[0] == xs[0]);
        assert(tail.last() == xs.last());
        assert(join(tail, sep) == join(tail.drop_last(), sep) + sep + tail.last());
        assert(join(xs, sep) == join(init, sep) + sep + xs.last());
        assert(join(xs, sep) =~= xs[0] + sep + join(tail, sep));
    }
}

/// A join of non-empty parts starts with the first character of the first
/// part and ends with the last character of the last part.
pub proof fn lemma_join_ends(xs: Seq<Seq<char>>, sep: Seq<char>)
    requires
        xs.len() >= 1,
        forall|i: int| 0 <= i < xs.len() ==> (#[trigger] xs[i]).len() > 0,
    ensures
        join(xs, sep).len() > 0,
        join(xs, sep)[0] == xs[0][0],
        join(xs, sep).last() == xs.last().last(),
{
    if xs.len() >= 2 {
        lemma_join_front(xs, sep);
        assert(xs[0].len() > 0);
        assert(xs.last().len() > 0);
    }
}

/// The lines of a join of non-empty parts with line breaks are the parts,
/// when no part holds a line break or ends with a carriage return.
pub proof fn lemma_lines_of_join(xs: Seq<Seq<char>>)
    requires
        xs.len() >= 1,
        forall|i: int|
            0 <= i < xs.len() ==> (#[trigger] xs[i]).len() > 0 && no_newline(xs[i]) && xs[i].last()
                != '\r',
    ensures
        lines(join(xs, seq!['\n'])) == xs,
    decreases xs.len(),
{
    let nl = seq!['\n'];
    let p = xs[0];
    if xs.len() == 1 {
        lemma_find_from(p, '\n', 0);
        assert(find_from(p, '\n', 0) == p.len());
        assert(p.subrange(0, p.len() as int) =~= p);
        assert(lines(p) =~= seq![p]);
        assert(xs =~= seq![p]);
    } else {
        let rest = xs.drop_first();
        assert forall|i: int|
            0 <= i < rest.len() implies (#[trigger] rest[i]).len() > 0 && no_newline(rest[i])
                && rest[i].last() != '\r' by {
            assert(rest[i] == xs[i + 1]);
        }
        lemma_lines_of_join(rest);
        lemma_join_front(xs, nl);
        let q = join(rest, nl);
        let s = join(xs, nl);
        assert(s == (p + nl) + q);
        lemma_find_from_shift(p, nl + q, '\n', 0);
        assert((nl + q)[0] == '\n');
        assert(find_from(nl + q, '\n', 0) == 0);
        assert(p + (nl + q) =~= s);
        assert forall|m: int| 0 <= m < p.len() implies s[m] != '\n' by {
            assert(s[m] == p[m]);
        }
        lemma_find_from_skip(s, '\n', 0, p.len() as int);
        assert(find_from(s, '\n', 0) == p.len());
        lemma_lines_from_shift(p + nl, q, 0);
        assert(s.subrange(0, p.len() as int) =~= p);
        assert(strip_cr(p) == p);
        assert(lines(s) =~= seq![p] + rest);
        assert(seq![p] + rest =~= xs);
    }
}

/// The views of a sequence of character vectors.
pub open spec fn views(v: Seq<Vec<char>>) -> Seq<Seq<char>> {
    v.map_values(|x: Vec<char>| x@)
}

/// The views of a sequence of strings.
pub open spec fn string_views(v: Seq<String>) -> Seq<Seq<char>> {
    v.map_values(|x: String| x@)
}

/// The first position at or after `i` holding `c`.
pub fn find_char_from(s: &Vec<char>, c: char, i: usize) -> (r: usize)
    requires
        i <= s.len(),
    ensures
        r == find_from(s@, c, i as int),
{
    let mut j = i;
    while j < s.len() && s[j] != c
        invariant
            i <= j <= s.len(),
            find_from(s@, c, i as int) == find_from(s@, c, j as int),
        decreases s.len() - j,
    {
        j = j + 1;
    }
    j
}

fn strip_cr_exec(x: Vec<char>) -> (res: Vec<char>)
    ensures
        res@ == strip_cr(x@),
{
    let ghost orig = x@;
    let mut x = x;
    if x.len() > 0 && x[x.len() - 1] == '\r' {
        x.pop();
        assert(x@ =~= strip_cr(orig));
    }
    x
}

/// `str::lines` over characters.
pub fn split_lines(s: &Vec<char>) -> (res: Vec<Vec<char>>)
    ensures
        views(res@) == lines(s@),
{
    let mut res: Vec<Vec<char>> = Vec::new();
    let mut pos: usize = 0;
    while pos < s.len()
        invariant
            0 <= pos <= s.len(),
            lines(s@) == views(res@) + lines_from(s@, pos as int),
        decreases s.len() - pos,
    {
        let k = find_char_from(s, '\n', pos);
        proof {
            lemma_find_from(s@, '\n', pos as int);
        }
        let ghost before = res@;
        if k == s.len() {
            let line = slice_chars(s, pos, s.len());
            res.push(line);
            assert(views(res@) =~= views(before).push(line@));
            assert(lines_from(s@, s.len() as int) =~= Seq::<Seq<char>>::empty());
            pos = s.len();
        } else {
            let line = slice_chars(s, pos, k);
            let line = strip_cr_exec(line);
            res.push(line);
            assert(views(res@) =~= views(before).push(line@));
            pos = k + 1;
        }
    }
    assert(lines_from(s@, pos as int) =~= Seq::<Seq<char>>::empty());
    assert(views(res@) + Seq::<Seq<char>>::empty() =~= views(res@));
    res
}

/// The parts joined with `sep` between each two of them (`[T]::join`).
pub open spec fn join(parts: Seq<Seq<char>>, sep: Seq<char>) -> Seq<char>
    decreases parts.len(),
{
    if parts.len() == 0 {
        seq![]
    } else if parts.len() == 1 {
        parts[0]
    } else {
        join(parts.drop_last(), sep) + sep + parts.last()
    }
}

/// Joining character vectors.
pub fn join_chars(parts: &Vec<Vec<char>>, sep: &Vec<char>) -> (res: Vec<char>)
    ensures
        res@ == join(views(parts@), sep@),
{
    let mut res: Vec<char> = Vec::new();
    let mut i: usize = 0;
    while i < parts.len()
        invariant
            0 <= i <= parts.len(),
            res@ == join(views(parts@).take(i as int), sep@),
        decreases parts.len() - i,
    {
        let ghost prev = views(parts@).take(i as int);
        let ghost next = views(parts@).take(i as int + 1);
        assert(next.drop_last() =~= prev);
        if i > 0 {
            let mut s2 = sep.clone();
            res.append(&mut s2);
        }
        let mut p = parts[i].clone();
        res.append(&mut p);
        proof {
            if i == 0 {
                assert(res@ =~= next[0]);
            } else {
                assert(res@ =~= join(prev, sep@) + sep@ + next.last());
            }
        }
        i = i + 1;
    }
    assert(views(parts@).take(parts.len() as int) =~= views(parts@));
    res
}

/// Joining strings, as `[String]::join`.
pub fn join_strings(parts: &Vec<String>, sep: &str) -> (res: Vec<char>)
    ensures
        res@ == join(string_views(parts@), sep@),
{
    let mut vs: Vec<Vec<char>> = Vec::new();
    let mut i: usize = 0;
    while i < parts.len()
        invariant
            0 <= i <= parts.len(),
            views(vs@) == string_views(parts@).take(i as int),
        decreases parts.len() - i,
    {
        let ghost before = vs@;
        let v = chars_of(parts[i].as_str());
        assert(v@ == parts@[i as int]@);
        vs.push(v);
        assert(views(vs@) =~= views(before).push(v@));
        assert(string_views(parts@).take(i as int + 1) =~= string_views(parts@).take(i as int).push(
            parts@[i as int]@,
        ));
        i = i + 1;
    }
    assert(string_views(parts@).take(parts.len() as int) =~= string_views(parts@));
    let sep_chars = chars_of(sep);
    join_chars(&vs, &sep_chars)
}

// ---------------------------------------------------------------------------
// Searching and comparing.
// ---------------------------------------------------------------------------

/// `n` occurs in `h` at position `i`.
pub open spec fn matches_at(h: Seq<char>, n: Seq<char>, i: int) -> bool {
    &&& 0 <= i
    &&& i + n.len() <= h.len()
    &&& forall|k: int| 0 <= k < n.len() ==> h[i + k] == n[k]
}

/// `str::contains` with a string pattern.
pub open spec fn contains(h: Seq<char>, n: Seq<char>) -> bool {
    exists|i: int| matches_at(h, n, i)
}

/// `str::starts_with`.
pub open spec fn starts_with(s: Seq<char>, p: Seq<char>) -> bool {
    matches_at(s, p, 0)
}

/// `str::strip_prefix`.
pub open spec fn strip_prefix(s: Seq<char>, p: Seq<char>) -> Option<Seq<char>> {
    if starts_with(s, p) {
        Some(s.skip(p.len() as int))
    } else {
        None
    }
}

/// `str::eq_ignore_ascii_case`.
pub open spec fn eq_ignore_case(a: Seq<char>, b: Seq<char>) -> bool {
    lower(a) == lower(b)
}

pub fn matches_at_exec(h: &Vec<char>, n: &Vec<char>, i: usize) -> (r: bool)
    ensures
        r == matches_at(h@, n@, i as int),
{
    if n.len() > h.len() || i > h.len() - n.len() {
        return false;
    }
    let mut k: usize = 0;
    while k < n.len()
        invariant
            0 <= k <= n.len(),
            i + n.len() <= h.len(),
            forall|m: int| 0 <= m < k ==> h@[i + m] == n@[m],
        decreases n.len() - k,
    {
        if h[i + k] != n[k] {
            return false;
        }
        k = k + 1;
    }
    true
}

/// `str::contains` over characters.
pub fn contains_chars(h: &Vec<char>, n: &Vec<char>) -> (r: bool)
    ensures
        r == contains(h@, n@),
{
    if n.len() > h.len() {
        return false;
    }
    let last = h.len() - n.len();
    let mut i: usize = 0;
    while i <= last
        invariant
            last == h.len() - n.len(),
            n.len() <= h.len(),
            forall|j: int| 0 <= j < i ==> !matches_at(h@, n@, j),
        decreases last + 1 - i,
    {
        if matches_at_exec(h, n, i) {
            return true;
        }
        i = i + 1;
    }
    false
}

/// `str::starts_with` over characters.
pub fn starts_with_chars(s: &Vec<char>, p: &Vec<char>) -> (r: bool)
    ensures
        r == starts_with(s@, p@),
{
    matches_at_exec(s, p, 0)
}

/// Equality of character vectors.
pub fn chars_eq(a: &Vec<char>, b: &Vec<char>) -> (r: bool)
    ensures
        r == (a@ == b@),
{
    if a.len() != b.len() {
        return false;
    }
    let r = matches_at_exec(a, b, 0);
    proof {
        if r {
            assert(a@ =~= b@);
        }
    }
    r
}

/// Whether two string slices hold the same text.
pub fn same_text(a: &str, b: &str) -> (r: bool)
    ensures
        r == (a@ == b@),
{
    chars_eq(&chars_of(a), &chars_of(b))
}

/// `str::eq_ignore_ascii_case` over characters.
pub fn eq_ignore_case_chars(a: &Vec<char>, b: &Vec<char>) -> (r: bool)
    ensures
        r == eq_ignore_case(a@, b@),
{
    let la = to_lower(a);
    let lb = to_lower(b);
    chars_eq(&la, &lb)
}


/// `s` with `p` removed from its start, if it starts with `p`.
pub fn strip_prefix_chars(s: &Vec<char>, p: &Vec<char>) -> (res: Option<Vec<char>>)
    ensures
        match res {
            Some(r) => strip_prefix(s@, p@) == Some(r@),
            None => strip_prefix(s@, p@) is None,
        },
{
    if starts_with_chars(s, p) {
        let r = slice_chars(s, p.len(), s.len());
        assert(r@ =~= s@.skip(p@.len() as int));
        Some(r)
    } else {
        None
    }
}

/// A prefix followed by anything starts with that prefix, and stripping it
/// gives back what followed.
pub proof fn lemma_strip_prefix_concat(p: Seq<char>, rest: Seq<char>)
    ensures
        strip_prefix(p + rest, p) == Some(rest),
{
    assert(matches_at(p + rest, p, 0));
    assert((p + rest).skip(p.len() as int) =~= rest);
}

/// Lexicographic order of `a` and `b` from position `i` on, by code point.
/// Since UTF-8 keeps the order of code points, this is the byte order that
/// `Ord for str` uses.
pub open spec fn lex_lt_from(a: Seq<char>, b: Seq<char>, i: int) -> bool
    decreases a.len() - i,
{
    if i < 0 {
        false
    } else if i >= a.len() {
        b.len() > i
    } else if i >= b.len() {
        false
    } else if a[i] != b[i] {
        (a[i] as int) < (b[i] as int)
    } else {
        lex_lt_from(a, b, i + 1)
    }
}

/// `a < b` for strings.
pub open spec fn lex_lt(a: Seq<char>, b: Seq<char>) -> bool {
    lex_lt_from(a, b, 0)
}

pub proof fn lemma_lex_irreflexive(a: Seq<char>, i: int)
    requires
        0 <= i,
    ensures
        !lex_lt_from(a, a, i),
    decreases a.len() - i,
{
    if i < a.len() {
        lemma_lex_irreflexive(a, i + 1);
    }
}

pub proof fn lemma_lex_transitive(a: Seq<char>, b: Seq<char>, c: Seq<char>, i: int)
    requires
        0 <= i,
        lex_lt_from(a, b, i),
        lex_lt_from(b, c, i),
    ensures
        lex_lt_from(a, c, i),
    decreases a.len() - i,
{
    if i < a.len() && i < b.len() && i < c.len() && a[i] == b[i] && b[i] == c[i] {
        lemma_lex_transitive(a, b, c, i + 1);
    }
}

pub proof fn lemma_lex_total(a: Seq<char>, b: Seq<char>, i: int)
    requires
        0 <= i <= a.len(),
        i <= b.len(),
        a.take(i) == b.take(i),
        a != b,
    ensures
        lex_lt_from(a, b, i) || lex_lt_from(b, a, i),
    decreases a.len() - i,
{
    if i < a.len() && i < b.len() && a[i] == b[i] {
        assert(a.take(i + 1) =~= a.take(i).push(a[i]));
        assert(b.take(i + 1) =~= b.take(i).push(b[i]));
        lemma_lex_total(a, b, i + 1);
    } else if i == a.len() && i == b.len() {
        assert(a =~= a.take(i));
        assert(b =~= b.take(i));
    }
}

pub proof fn lemma_lex_asymmetric(a: Seq<char>, b: Seq<char>, i: int)
    requires
        0 <= i,
        lex_lt_from(a, b, i),
    ensures
        !lex_lt_from(b, a, i),
    decreases a.len() - i,
{
    if i < a.len() && i < b.len() && a[i] == b[i] {
        lemma_lex_asymmetric(a, b, i + 1);
    }
}

/// `a < b` for character vectors.
pub fn lex_lt_chars(a: &Vec<char>, b: &Vec<char>) -> (r: bool)
    ensures
        r == lex_lt(a@, b@),
{
    let mut i: usize = 0;
    while i < a.len() && i < b.len() && a[i] == b[i]
        invariant
            0 <= i <= a.len(),
            i <= b.len(),
            lex_lt(a@, b@) == lex_lt_from(a@, b@, i as int),
        decreases a.len() - i,
    {
        i = i + 1;
    }
    if i >= a.len() {
        b.len() > i
    } else if i >= b.len() {
        false
    } else {
        a[i] < b[i]
    }
}

// ---------------------------------------------------------------------------
// Decimal numbers.
// ---------------------------------------------------------------------------

/// The character of the decimal digit `d % 10`.
pub open spec fn digit(d: nat) -> char {
    ((d % 10) + 48) as char
}

/// The decimal rendering of `n`, as `Display for usize` writes it.
pub open spec fn decimal(n: nat) -> Seq<char>
    decreases n,
{
    if n < 10 {
        seq![digit(n)]
    } else {
        decimal(n / 10).push(digit(n % 10))
    }
}

/// Appends the decimal rendering of `n` to `out`.
pub fn push_decimal(out: &mut Vec<char>, n: usize)
    ensures
        final(out)@ == old(out)@ + decimal(n as nat),
    decreases n,
{
    if n >= 10 {
        push_decimal(out, n / 10);
    }
    let d = (n % 10) as u8;
    let c = (d + 48) as char;
    assert(c == digit((n % 10) as nat));
    out.push(c);
    assert(decimal(n as nat) == if n < 10 {
        seq![digit(n as nat)]
    } else {
        decimal((n / 10) as nat).push(digit((n % 10) as nat))
    });
    proof {
        if n >= 10 {
            assert(digit((n % 10) as nat) == digit(n as nat % 10));
        } else {
            assert(n % 10 == n);
        }
    }
    assert(final(out)@ =~= old(out)@ + decimal(n as nat));
}

/// Appends the decimal rendering of `n` to a string.
pub fn push_decimal_str(s: &mut String, n: usize)
    ensures
        final(s)@ == old(s)@ + decimal(n as nat),
{
    let mut d: Vec<char> = Vec::new();
    push_decimal(&mut d, n);
    assert(d@ =~= decimal(n as nat));
    push_chars(s, &d);
}

// ---------------------------------------------------------------------------
// Splitting on whitespace.
// ---------------------------------------------------------------------------

/// The whitespace-separated words of `s` from position `i` on
/// (`str::split_whitespace`).
pub open spec fn words_from(s: Seq<char>, i: int) -> Seq<Seq<char>>
    decreases s.len() - i,
{
    if i < 0 || i > s.len() {
        seq![]
    } else {
        let a = skip_fwd(Strip::Whitespace, s, i);
        proof {
            lemma_skip_fwd(Strip::Whitespace, s, i);
        }
        if a >= s.len() {
            seq![]
        } else {
            let b = skip_fwd(Strip::NonWhitespace, s, a);
            proof {
                lemma_skip_fwd(Strip::NonWhitespace, s, a);
            }
            seq![s.subrange(a, b)] + words_from(s, b)
        }
    }
}

/// `str::split_whitespace`.
pub open spec fn words(s: Seq<char>) -> Seq<Seq<char>> {
    words_from(s, 0)
}

/// `str::split_whitespace` over characters.
pub fn split_words(s: &Vec<char>) -> (res: Vec<Vec<char>>)
    ensures
        views(res@) == words(s@),
{
    let mut res: Vec<Vec<char>> = Vec::new();
    let mut i: usize = 0;
    loop
        invariant
            0 <= i <= s.len(),
            words(s@) == views(res@) + words_from(s@, i as int),
        decreases s.len() - i,
    {
        let a = skip_forward(Strip::Whitespace, s, i);
        proof {
            lemma_skip_fwd(Strip::Whitespace, s@, i as int);
        }
        if a >= s.len() {
            assert(words_from(s@, i as int) =~= Seq::<Seq<char>>::empty());
            assert(views(res@) + Seq::<Seq<char>>::empty() =~= views(res@));
            return res;
        }
        let b = skip_forward(Strip::NonWhitespace, s, a);
        proof {
            lemma_skip_fwd(Strip::NonWhitespace, s@, a as int);
        }
        let w = slice_chars(s, a, b);
        let ghost before = res@;
        res.push(w);
        assert(views(res@) =~= views(before).push(w@));
        i = b;
    }
}

} // verus!

//! The syntax section of a catalog entry: cleaning a syntax block, joining
//! the user-mode and kernel-mode blocks, and inferring the block from the
//! documentation text when the entry carries no structured syntax.
use vstd::prelude::*;

use crate::text::{
    Strip, chars_eq, chars_of, find_from, is_ws, join, join_chars, lemma_find_from,
    lemma_find_from_shift, lemma_find_from_skip, lemma_join_ends, lemma_lines_from_shift,
    lemma_lines_no_newline, lemma_skip_fwd, lines_from, lemma_lines_of_join, lemma_skip_back,
    lemma_trim_fixed, lemma_trim_shape, lines, no_newline, skip_back, skip_fwd, split_lines,
    strip_cr, strips, trim, trim_chars, trim_start_k, views,
};

verus! {

/// The view of an optional character vector.
pub open spec fn opt_chars_view(o: Option<Vec<char>>) -> Option<Seq<char>> {
    match o {
        Some(v) => Some(v@),
        None => None,
    }
}

/// The trimmed lines that hold more than whitespace, in order.
pub open spec fn nonblank_trimmed(ls: Seq<Seq<char>>) -> Seq<Seq<char>>
    decreases ls.len(),
{
    if ls.len() == 0 {
        seq![]
    } else {
        let r = nonblank_trimmed(ls.drop_last());
        let t = trim(ls.last());
        if t.len() == 0 {
            r
        } else {
            r.push(t)
        }
    }
}

/// A cleaned syntax block: nothing when the block is blank; otherwise its
/// non-blank lines, each trimmed, one per line.
pub open spec fn spec_cleaned(block: Seq<char>) -> Option<Seq<char>> {
    let t = trim(block);
    if t.len() == 0 {
        None
    } else {
        Some(join(nonblank_trimmed(lines(t)), seq!['\n']))
    }
}

pub open spec fn spec_cleaned_opt(block: Option<Seq<char>>) -> Option<Seq<char>> {
    match block {
        Some(b) => spec_cleaned(b),
        None => None,
    }
}

/// The structured syntax text: a `User-Mode Syntax` section and a
/// `Kernel-Mode Syntax` section for those of the two blocks that are not
/// blank, separated by an empty line; nothing when both are missing or blank.
pub open spec fn spec_format_structured(
    user: Option<Seq<char>>,
    kernel: Option<Seq<char>>,
) -> Option<Seq<char>> {
    match (spec_cleaned_opt(user), spec_cleaned_opt(kernel)) {
        (None, None) => None,
        (Some(a), None) => Some("User-Mode Syntax\n"@ + a),
        (None, Some(b)) => Some("Kernel-Mode Syntax\n"@ + b),
        (Some(a), Some(b)) => Some(
            "User-Mode Syntax\n"@ + a + "\n\n"@ + "Kernel-Mode Syntax\n"@ + b,
        ),
    }
}

/// The headings that end the syntax section of a documentation page.
pub open spec fn is_section_boundary(t: Seq<char>) -> bool {
    ||| t == "Parameters"@
    ||| t == "Parameter"@
    ||| t == "Environment"@
    ||| t == "Remarks"@
    ||| t == "Remark"@
    ||| t == "Additional Information"@
    ||| t == "Examples"@
    ||| t == "Example"@
    ||| t == "Targets"@
    ||| t == "Platforms"@
    ||| t == "Modes"@
    ||| t == "Note"@
    ||| t == "Notes"@
}

/// The first line at or after `i` that is blank (when `blank` is false) or
/// not blank (when `blank` is true), or the number of lines.
pub open spec fn skip_lines(ls: Seq<Seq<char>>, i: int, blank: bool) -> int
    decreases ls.len() - i,
{
    if 0 <= i < ls.len() && (trim(ls[i]).len() == 0) == blank {
        skip_lines(ls, i + 1, blank)
    } else {
        i
    }
}

/// Where the syntax section starts: after leading blank lines, the title
/// paragraph, the blank lines after it, the description paragraph and the
/// blank lines after that.
pub open spec fn syntax_start(ls: Seq<Seq<char>>) -> int {
    let a = skip_lines(ls, 0, true);
    let b = skip_lines(ls, a, false);
    let c = skip_lines(ls, b, true);
    let d = skip_lines(ls, c, false);
    skip_lines(ls, d, true)
}

/// The first line at or after `i` whose trimmed text is a section heading,
/// or the number of lines.
pub open spec fn find_boundary(ls: Seq<Seq<char>>, i: int) -> int
    decreases ls.len() - i,
{
    if 0 <= i < ls.len() && !is_section_boundary(trim(ls[i])) {
        find_boundary(ls, i + 1)
    } else {
        i
    }
}

/// The syntax section inferred from a documentation text: the lines from
/// the start of the syntax section up to the next section heading, cleaned.
pub open spec fn spec_infer_syntax(doc: Seq<char>) -> Option<Seq<char>> {
    let ls = lines(doc);
    if ls.len() == 0 {
        None
    } else {
        let start = syntax_start(ls);
        let end = find_boundary(ls, start);
        spec_cleaned(join(ls.subrange(start, end), seq!['\n']))
    }
}

pub proof fn lemma_skip_lines(ls: Seq<Seq<char>>, i: int, blank: bool)
    requires
        0 <= i <= ls.len(),
    ensures
        i <= skip_lines(ls, i, blank) <= ls.len(),
    decreases ls.len() - i,
{
    if i < ls.len() && (trim(ls[i]).len() == 0) == blank {
        lemma_skip_lines(ls, i + 1, blank);
    }
}

pub proof fn lemma_find_boundary(ls: Seq<Seq<char>>, i: int)
    requires
        0 <= i <= ls.len(),
    ensures
        i <= find_boundary(ls, i) <= ls.len(),
    decreases ls.len() - i,
{
    if i < ls.len() && !is_section_boundary(trim(ls[i])) {
        lemma_find_boundary(ls, i + 1);
    }
}

/// Cleans a syntax block: `None` when it is blank, else its non-blank lines
/// trimmed and joined by newlines.
pub fn cleaned_block(block: &Vec<char>) -> (res: Option<Vec<char>>)
    ensures
        opt_chars_view(res) == spec_cleaned(block@),
{
    let t = trim_chars(block);
    if t.len() == 0 {
        return None;
    }
    let ls = split_lines(&t);
    let mut kept: Vec<Vec<char>> = Vec::new();
    let mut i: usize = 0;
    while i < ls.len()
        invariant
            0 <= i <= ls.len(),
            views(kept@) == nonblank_trimmed(views(ls@).take(i as int)),
        decreases ls.len() - i,
    {
        let ghost prefix = views(ls@).take(i as int + 1);
        assert(prefix.drop_last() =~= views(ls@).take(i as int));
        let tr = trim_chars(&ls[i]);
        if tr.len() > 0 {
            let ghost before = kept@;
            kept.push(tr);
            assert(views(kept@) =~= views(before).push(tr@));
        }
        i = i + 1;
    }
    assert(views(ls@).take(ls.len() as int) =~= views(ls@));
    let nl = vec!['\n'];
    let out = join_chars(&kept, &nl);
    assert(nl@ =~= seq!['\n']);
    Some(out)
}

fn cleaned_opt(block: &Option<Vec<char>>) -> (res: Option<Vec<char>>)
    ensures
        opt_chars_view(res) == spec_cleaned_opt(opt_chars_view(*block)),
{
    match block {
        Some(b) => cleaned_block(b),
        None => None,
    }
}

/// Appends the characters of a string slice to a character vector.
pub fn append_str(out: &mut Vec<char>, s: &str)
    ensures
        final(out)@ == old(out)@ + s@,
{
    let mut c = chars_of(s);
    out.append(&mut c);
}

/// Joins the cleaned user-mode and kernel-mode syntax blocks under their
/// headings.
pub fn format_structured_syntax(user: &Option<Vec<char>>, kernel: &Option<Vec<char>>) -> (res:
    Option<Vec<char>>)
    ensures
        opt_chars_view(res) == spec_format_structured(
            opt_chars_view(*user),
            opt_chars_view(*kernel),
        ),
{
    let u = cleaned_opt(user);
    let k = cleaned_opt(kernel);
    match (u, k) {
        (None, None) => None,
        (Some(a), None) => {
            let mut out: Vec<char> = Vec::new();
            append_str(&mut out, "User-Mode Syntax\n");
            let mut a = a;
            out.append(&mut a);
            Some(out)
        },
        (None, Some(b)) => {
            let mut out: Vec<char> = Vec::new();
            append_str(&mut out, "Kernel-Mode Syntax\n");
            let mut b = b;
            out.append(&mut b);
            Some(out)
        },
        (Some(a), Some(b)) => {
            let mut out: Vec<char> = Vec::new();
            append_str(&mut out, "User-Mode Syntax\n");
            let mut a = a;
            out.append(&mut a);
            append_str(&mut out, "\n\n");
            append_str(&mut out, "Kernel-Mode Syntax\n");
            let mut b = b;
            out.append(&mut b);
            Some(out)
        },
    }
}

/// Whether `t` is exactly the literal `lit`.
fn is_literal(t: &Vec<char>, lit: &str) -> (r: bool)
    ensures
        r == (t@ == lit@),
{
    let l = chars_of(lit);
    chars_eq(t, &l)
}

/// Whether a trimmed line is a heading that ends the syntax section.
pub fn is_syntax_section_boundary(t: &Vec<char>) -> (r: bool)
    ensures
        r == is_section_boundary(t@),
{
    is_literal(t, "Parameters") || is_literal(t, "Parameter") || is_literal(t, "Environment")
        || is_literal(t, "Remarks") || is_literal(t, "Remark") || is_literal(
        t,
        "Additional Information",
    ) || is_literal(t, "Examples") || is_literal(t, "Example") || is_literal(t, "Targets")
        || is_literal(t, "Platforms") || is_literal(t, "Modes") || is_literal(t, "Note")
        || is_literal(t, "Notes")
}

pub(crate) fn skip_lines_exec(ls: &Vec<Vec<char>>, i: usize, blank: bool) -> (r: usize)
    requires
        i <= ls.len(),
    ensures
        r == skip_lines(views(ls@), i as int, blank),
{
    let mut j = i;
    while j < ls.len() && ((trim_chars(&ls[j]).len() == 0) == blank)
        invariant
            i <= j <= ls.len(),
            skip_lines(views(ls@), i as int, blank) == skip_lines(views(ls@), j as int, blank),
        decreases ls.len() - j,
    {
        j = j + 1;
    }
    j
}

/// Infers the syntax section of a documentation text.
pub fn infer_syntax_block(documentation: &Vec<char>) -> (res: Option<Vec<char>>)
    ensures
        opt_chars_view(res) == spec_infer_syntax(documentation@),
{
    let ls = split_lines(documentation);
    if ls.len() == 0 {
        return None;
    }
    let ghost lv = views(ls@);
    let a = skip_lines_exec(&ls, 0, true);
    proof {
        lemma_skip_lines(lv, 0, true);
    }
    let b = skip_lines_exec(&ls, a, false);
    proof {
        lemma_skip_lines(lv, a as int, false);
    }
    let c = skip_lines_exec(&ls, b, true);
    proof {
        lemma_skip_lines(lv, b as int, true);
    }
    let d = skip_lines_exec(&ls, c, false);
    proof {
        lemma_skip_lines(lv, c as int, false);
    }
    let start = skip_lines_exec(&ls, d, true);
    proof {
        lemma_skip_lines(lv, d as int, true);
    }
    let mut end = start;
    while end < ls.len() && !is_syntax_section_boundary(&trim_chars(&ls[end]))
        invariant
            start <= end <= ls.len(),
            find_boundary(lv, start as int) == find_boundary(lv, end as int),
            lv == views(ls@),
        decreases ls.len() - end,
    {
        end = end + 1;
    }
    let mut part: Vec<Vec<char>> = Vec::new();
    let mut i = start;
    while i < end
        invariant
            start <= i <= end <= ls.len(),
            lv == views(ls@),
            views(part@) == lv.subrange(start as int, i as int),
        decreases end - i,
    {
        let ghost before = part@;
        part.push(ls[i].clone());
        assert(views(part@) =~= views(before).push(ls@[i as int]@));
        assert(lv.subrange(start as int, i as int + 1) =~= lv.subrange(start as int, i as int).push(
            lv[i as int],
        ));
        i = i + 1;
    }
    let nl = vec!['\n'];
    assert(nl@ =~= seq!['\n']);
    let joined = join_chars(&part, &nl);
    cleaned_block(&joined)
}

/// A text that starts with a character that is not whitespace is not blank
/// once trimmed.
proof fn lemma_trim_nonblank(x: Seq<char>)
    requires
        x.len() > 0,
        !is_ws(x[0]),
    ensures
        trim(x).len() > 0,
{
    let k = Strip::Whitespace;
    assert(skip_fwd(k, x, 0) == 0);
    assert(trim_start_k(k, x) =~= x);
    lemma_skip_back(k, x, x.len() as int);
    if skip_back(k, x, x.len() as int) == 0 {
        assert(strips(k, x[0]));
    }
}

/// Some kept line exists when some line is not blank.
proof fn lemma_nonblank_exists(ls: Seq<Seq<char>>, i: int)
    requires
        0 <= i < ls.len(),
        trim(ls[i]).len() > 0,
    ensures
        nonblank_trimmed(ls).len() > 0,
    decreases ls.len(),
{
    if i < ls.len() - 1 {
        assert(ls.drop_last()[i] == ls[i]);
        lemma_nonblank_exists(ls.drop_last(), i);
    }
}

/// The first line of a text that starts with a character that is not
/// whitespace is not blank.
proof fn lemma_first_line_nonblank(t: Seq<char>)
    requires
        t.len() > 0,
        !is_ws(t[0]),
    ensures
        nonblank_trimmed(lines(t)).len() > 0,
{
    lemma_find_from(t, '\n', 0);
    let k = find_from(t, '\n', 0);
    assert(k >= 1);
    let line0 = if k < t.len() {
        strip_cr(t.subrange(0, k))
    } else {
        t.subrange(0, t.len() as int)
    };
    assert(lines(t)[0] == line0);
    assert(line0.len() > 0 && line0[0] == t[0]);
    lemma_trim_nonblank(line0);
    lemma_nonblank_exists(lines(t), 0);
}

/// Every kept line is non-empty, starts and ends with a character that is
/// not whitespace, and holds no line break.
proof fn lemma_nonblank_trimmed_shape(ls: Seq<Seq<char>>)
    requires
        forall|i: int| 0 <= i < ls.len() ==> no_newline(#[trigger] ls[i]),
    ensures
        forall|j: int|
            0 <= j < nonblank_trimmed(ls).len() ==> {
                let x = #[trigger] nonblank_trimmed(ls)[j];
                &&& x.len() > 0
                &&& !is_ws(x[0])
                &&& !is_ws(x.last())
                &&& no_newline(x)
            },
    decreases ls.len(),
{
    if ls.len() > 0 {
        let init = ls.drop_last();
        assert forall|i: int| 0 <= i < init.len() implies no_newline(#[trigger] init[i]) by {
            assert(init[i] == ls[i]);
        }
        lemma_nonblank_trimmed_shape(init);
        lemma_trim_shape(ls.last());
        let r = nonblank_trimmed(init);
        let t = trim(ls.last());
        if t.len() > 0 {
            assert forall|j: int| 0 <= j < nonblank_trimmed(ls).len() implies {
                let x = #[trigger] nonblank_trimmed(ls)[j];
                &&& x.len() > 0
                &&& !is_ws(x[0])
                &&& !is_ws(x.last())
                &&& no_newline(x)
            } by {
                if j < r.len() {
                    assert(nonblank_trimmed(ls)[j] == r[j]);
                } else {
                    assert(nonblank_trimmed(ls)[j] == t);
                }
            }
        }
    }
}

/// Lines that are already kept and trimmed are kept as they are.
proof fn lemma_nonblank_trimmed_fixed(xs: Seq<Seq<char>>)
    requires
        forall|i: int| 0 <= i < xs.len() ==> (#[trigger] xs[i]).len() > 0 && trim(xs[i]) == xs[i],
    ensures
        nonblank_trimmed(xs) == xs,
    decreases xs.len(),
{
    if xs.len() > 0 {
        let init = xs.drop_last();
        assert forall|i: int| 0 <= i < init.len() implies (#[trigger] init[i]).len() > 0 && trim(
            init[i],
        ) == init[i] by {
            assert(init[i] == xs[i]);
        }
        lemma_nonblank_trimmed_fixed(init);
        assert(trim(xs.last()) == xs.last());
        assert(init.push(xs.last()) =~= xs);
    }
}

/// Cleaning is idempotent: a cleaned syntax block is already clean, so
/// cleaning it again gives it back unchanged.
pub proof fn law_cleaning_is_idempotent(block: Seq<char>)
    ensures
        match spec_cleaned(block) {
            Some(c) => spec_cleaned(c) == Some(c),
            None => true,
        },
{
    let t = trim(block);
    if t.len() > 0 {
        lemma_trim_shape(block);
        let ls = lines(t);
        lemma_lines_no_newline(t, 0);
        lemma_nonblank_trimmed_shape(ls);
        lemma_first_line_nonblank(t);
        let xs = nonblank_trimmed(ls);
        let nl = seq!['\n'];
        let c = join(xs, nl);
        assert forall|i: int| 0 <= i < xs.len() implies (#[trigger] xs[i]).len() > 0 && no_newline(
            xs[i],
        ) && xs[i].last() != '\r' && trim(xs[i]) == xs[i] by {
            lemma_trim_fixed(xs[i]);
        }
        lemma_join_ends(xs, nl);
        lemma_trim_fixed(c);
        lemma_lines_of_join(xs);
        lemma_nonblank_trimmed_fixed(xs);
        assert(spec_cleaned(block) == Some(c));
        assert(spec_cleaned(c) == Some(join(nonblank_trimmed(lines(c)), nl)));
    }
}

// ---------------------------------------------------------------------------
// Surrounding whitespace keeps the same lines.
// ---------------------------------------------------------------------------

/// A line as kept by cleaning: trimmed, and only when not blank.
pub open spec fn kept(x: Seq<char>) -> Seq<Seq<char>> {
    if trim(x).len() > 0 {
        seq![trim(x)]
    } else {
        seq![]
    }
}

/// The text consists of whitespace only.
pub open spec fn all_ws(w: Seq<char>) -> bool {
    forall|i: int| 0 <= i < w.len() ==> is_ws(#[trigger] w[i])
}

proof fn lemma_skip_fwd_shift(a: Seq<char>, x: Seq<char>, i: int)
    requires
        0 <= i <= x.len(),
    ensures
        skip_fwd(Strip::Whitespace, a + x, a.len() + i) == a.len() + skip_fwd(Strip::Whitespace, x, i),
    decreases x.len() - i,
{
    if i < x.len() {
        assert((a + x)[a.len() + i] == x[i]);
        if strips(Strip::Whitespace, x[i]) {
            lemma_skip_fwd_shift(a, x, i + 1);
        }
    }
}

proof fn lemma_trim_cons(c: char, x: Seq<char>)
    requires
        is_ws(c),
    ensures
        trim(seq![c] + x) == trim(x),
{
    let k = Strip::Whitespace;
    let y = seq![c] + x;
    assert(y[0] == c);
    assert(skip_fwd(k, y, 0) == skip_fwd(k, y, 1));
    lemma_skip_fwd_shift(seq![c], x, 0);
    lemma_skip_fwd(k, x, 0);
    assert(trim_start_k(k, y) =~= trim_start_k(k, x));
}

proof fn lemma_skip_fwd_prefix(s: Seq<char>, t: Seq<char>, i: int)
    requires
        0 <= i <= s.len(),
        skip_fwd(Strip::Whitespace, s, i) < s.len(),
    ensures
        skip_fwd(Strip::Whitespace, s + t, i) == skip_fwd(Strip::Whitespace, s, i),
    decreases s.len() - i,
{
    assert((s + t)[i] == s[i]);
    if strips(Strip::Whitespace, s[i]) {
        lemma_skip_fwd_prefix(s, t, i + 1);
    }
}

proof fn lemma_skip_back_prefix(s: Seq<char>, n: int, j: int)
    requires
        0 <= j <= n <= s.len(),
    ensures
        skip_back(Strip::Whitespace, s.take(n), j) == skip_back(Strip::Whitespace, s, j),
    decreases j,
{
    if j > 0 {
        assert(s.take(n)[j - 1] == s[j - 1]);
        lemma_skip_back_prefix(s, n, j - 1);
    }
}

/// Whitespace at the end of a text does not change its trim.
proof fn lemma_trim_drop_last(y: Seq<char>)
    requires
        y.len() > 0,
        is_ws(y.last()),
    ensures
        trim(y.drop_last()) == trim(y),
{
    let k = Strip::Whitespace;
    let x = y.drop_last();
    assert(y =~= x + seq![y.last()]);
    lemma_skip_fwd(k, y, 0);
    lemma_skip_fwd(k, x, 0);
    let a = skip_fwd(k, y, 0);
    if skip_fwd(k, x, 0) < x.len() {
        lemma_skip_fwd_prefix(x, seq![y.last()], 0);
    }
    if a == y.len() {
        assert(skip_fwd(k, x, 0) == x.len());
        assert(trim(x) =~= Seq::<char>::empty());
        assert(trim(y) =~= Seq::<char>::empty());
    } else {
        if skip_fwd(k, x, 0) == x.len() {
            assert(strips(k, x[a]));
            assert(false);
        }
        let t1y = y.skip(a);
        let t1x = x.skip(a);
        let n = t1y.len() - 1;
        assert(t1x =~= t1y.take(n));
        assert(t1y[n] == y.last());
        assert(skip_back(k, t1y, t1y.len() as int) == skip_back(k, t1y, n));
        lemma_skip_back_prefix(t1y, n, n);
        lemma_skip_back(k, t1y, n);
        let e = skip_back(k, t1y, n);
        assert(t1x.take(e) =~= t1y.take(e));
    }
}

proof fn lemma_trim_strip_cr(x: Seq<char>)
    ensures
        trim(strip_cr(x)) == trim(x),
{
    if x.len() > 0 && x.last() == '\r' {
        lemma_trim_drop_last(x);
    }
}

proof fn lemma_nbt_cons(x: Seq<char>, ys: Seq<Seq<char>>)
    ensures
        nonblank_trimmed(seq![x] + ys) == kept(x) + nonblank_trimmed(ys),
    decreases ys.len(),
{
    if ys.len() == 0 {
        let zs = seq![x] + ys;
        assert(zs =~= seq![x]);
        assert(zs.drop_last() =~= Seq::<Seq<char>>::empty());
        assert(zs.last() == x);
        assert(nonblank_trimmed(Seq::<Seq<char>>::empty()) == Seq::<Seq<char>>::empty());
        assert(nonblank_trimmed(ys) == Seq::<Seq<char>>::empty());
        if trim(x).len() > 0 {
            assert(nonblank_trimmed(zs) == Seq::<Seq<char>>::empty().push(trim(x)));
            assert(Seq::<Seq<char>>::empty().push(trim(x)) =~= kept(x) + Seq::<Seq<char>>::empty());
        } else {
            assert(nonblank_trimmed(zs) == Seq::<Seq<char>>::empty());
            assert(kept(x) + Seq::<Seq<char>>::empty() =~= Seq::<Seq<char>>::empty());
        }
    } else {
        let zs = seq![x] + ys;
        assert(zs.drop_last() =~= seq![x] + ys.drop_last());
        assert(zs.last() == ys.last());
        lemma_nbt_cons(x, ys.drop_last());
        if trim(ys.last()).len() > 0 {
            assert(kept(x) + nonblank_trimmed(ys.drop_last()).push(trim(ys.last())) =~= (kept(x)
                + nonblank_trimmed(ys.drop_last())).push(trim(ys.last())));
        }
    }
}

/// A whitespace character in front of a text keeps the same lines.
proof fn lemma_kept_cons_ws(c: char, s: Seq<char>)
    requires
        is_ws(c),
    ensures
        nonblank_trimmed(lines(seq![c] + s)) == nonblank_trimmed(lines(s)),
{
    let a = seq![c];
    let y = a + s;
    assert(y[0] == c);
    if c == '\n' {
        assert(find_from(y, '\n', 0) == 0);
        lemma_lines_from_shift(a, s, 0);
        assert(y.subrange(0, 0) =~= Seq::<char>::empty());
        assert(lines(y) == seq![strip_cr(Seq::<char>::empty())] + lines(s));
        lemma_nbt_cons(strip_cr(Seq::<char>::empty()), lines(s));
        assert(kept(Seq::<char>::empty()) =~= Seq::<Seq<char>>::empty());
        assert(Seq::<Seq<char>>::empty() + nonblank_trimmed(lines(s)) =~= nonblank_trimmed(lines(s)));
    } else if s.len() == 0 {
        assert(y =~= seq![c]);
        lemma_find_from(y, '\n', 0);
        assert(find_from(y, '\n', 1) == 1);
        assert(lines(y) == seq![y.subrange(0, 1)]);
        assert(y.subrange(0, 1) =~= seq![c] + s);
        lemma_trim_cons(c, s);
        assert(trim(s) =~= Seq::<char>::empty());
        assert(nonblank_trimmed(seq![y.subrange(0, 1)]) == kept(y.subrange(0, 1)) + nonblank_trimmed(
            Seq::<Seq<char>>::empty(),
        )) by {
            lemma_nbt_cons(y.subrange(0, 1), Seq::<Seq<char>>::empty());
            assert(seq![y.subrange(0, 1)] + Seq::<Seq<char>>::empty() =~= seq![y.subrange(0, 1)]);
        }
        assert(lines(s) =~= Seq::<Seq<char>>::empty());
    } else {
        lemma_find_from_shift(a, s, '\n', 0);
        assert(find_from(y, '\n', 0) == find_from(y, '\n', 1));
        lemma_find_from(s, '\n', 0);
        let k = find_from(s, '\n', 0);
        if k < s.len() {
            lemma_lines_from_shift(a, s, k + 1);
            let x = s.subrange(0, k);
            assert(y.subrange(0, k + 1) =~= a + x);
            assert(lines(y) == seq![strip_cr(a + x)] + lines_from(s, k + 1));
            assert(lines(s) == seq![strip_cr(x)] + lines_from(s, k + 1));
            lemma_nbt_cons(strip_cr(a + x), lines_from(s, k + 1));
            lemma_nbt_cons(strip_cr(x), lines_from(s, k + 1));
            lemma_trim_strip_cr(a + x);
            lemma_trim_strip_cr(x);
            lemma_trim_cons(c, x);
        } else {
            assert(y.subrange(0, y.len() as int) =~= a + s);
            assert(s.subrange(0, s.len() as int) =~= s);
            assert(lines(y) == seq![a + s]);
            assert(lines(s) == seq![s]);
            lemma_nbt_cons(a + s, Seq::<Seq<char>>::empty());
            lemma_nbt_cons(s, Seq::<Seq<char>>::empty());
            assert(seq![a + s] + Seq::<Seq<char>>::empty() =~= seq![a + s]);
            assert(seq![s] + Seq::<Seq<char>>::empty() =~= seq![s]);
            lemma_trim_cons(c, s);
        }
    }
}

/// Whitespace in front of a text keeps the same lines.
proof fn lemma_kept_prefix_ws(w: Seq<char>, s: Seq<char>)
    requires
        all_ws(w),
    ensures
        nonblank_trimmed(lines(w + s)) == nonblank_trimmed(lines(s)),
    decreases w.len(),
{
    if w.len() > 0 {
        let rest = w.drop_first();
        assert(all_ws(rest)) by {
            assert forall|i: int| 0 <= i < rest.len() implies is_ws(#[trigger] rest[i]) by {
                assert(rest[i] == w[i + 1]);
            }
        }
        lemma_kept_prefix_ws(rest, s);
        assert(w + s =~= seq![w[0]] + (rest + s));
        lemma_kept_cons_ws(w[0], rest + s);
    } else {
        assert(w + s =~= s);
    }
}

/// A whitespace character at the end of a text keeps the same lines, from
/// any position on.
proof fn lemma_kept_from_snoc(s: Seq<char>, c: char, pos: int)
    requires
        is_ws(c),
        0 <= pos <= s.len(),
    ensures
        nonblank_trimmed(lines_from(s + seq![c], pos)) == nonblank_trimmed(lines_from(s, pos)),
    decreases s.len() - pos,
{
    let y = s + seq![c];
    assert(y[s.len() as int] == c);
    assert(forall|m: int| 0 <= m < s.len() ==> y[m] == s[m]);
    if pos == s.len() {
        assert(lines_from(s, pos) =~= Seq::<Seq<char>>::empty());
        lemma_find_from(y, '\n', pos);
        let line = if c == '\n' {
            strip_cr(y.subrange(pos, pos))
        } else {
            y.subrange(pos, y.len() as int)
        };
        if c == '\n' {
            assert(find_from(y, '\n', pos) == pos);
            assert(lines_from(y, pos + 1) =~= Seq::<Seq<char>>::empty());
            assert(lines_from(y, pos) == seq![line] + lines_from(y, pos + 1));
            assert(y.subrange(pos, pos) =~= Seq::<char>::empty());
        } else {
            assert(find_from(y, '\n', pos + 1) == pos + 1);
            assert(lines_from(y, pos) == seq![line]);
            assert(line =~= seq![c] + Seq::<char>::empty());
            lemma_trim_cons(c, Seq::<char>::empty());
            assert(trim(Seq::<char>::empty()) =~= Seq::<char>::empty());
        }
        lemma_nbt_cons(line, Seq::<Seq<char>>::empty());
        assert(seq![line] + Seq::<Seq<char>>::empty() =~= seq![line]);
        assert(trim(line).len() == 0);
    } else {
        lemma_find_from(s, '\n', pos);
        let k = find_from(s, '\n', pos);
        assert forall|m: int| pos <= m < k implies y[m] != '\n' by {
            assert(y[m] == s[m]);
        }
        lemma_find_from_skip(y, '\n', pos, k);
        if k < s.len() {
            assert(find_from(y, '\n', k) == k);
            lemma_kept_from_snoc(s, c, k + 1);
            assert(y.subrange(pos, k) =~= s.subrange(pos, k));
            let x = strip_cr(s.subrange(pos, k));
            assert(lines_from(y, pos) == seq![x] + lines_from(y, k + 1));
            assert(lines_from(s, pos) == seq![x] + lines_from(s, k + 1));
            lemma_nbt_cons(x, lines_from(y, k + 1));
            lemma_nbt_cons(x, lines_from(s, k + 1));
        } else {
            let x = s.subrange(pos, s.len() as int);
            assert(lines_from(s, pos) == seq![x]);
            let line = if c == '\n' {
                strip_cr(x)
            } else {
                x.push(c)
            };
            if c == '\n' {
                assert(find_from(y, '\n', k) == k);
                assert(lines_from(y, k + 1) =~= Seq::<Seq<char>>::empty());
                assert(y.subrange(pos, k) =~= x);
                assert(lines_from(y, pos) == seq![line] + lines_from(y, k + 1));
                lemma_trim_strip_cr(x);
            } else {
                assert(find_from(y, '\n', k + 1) == k + 1);
                assert(find_from(y, '\n', k) == k + 1);
                assert(y.subrange(pos, y.len() as int) =~= x.push(c));
                assert(lines_from(y, pos) == seq![line]);
                assert(x.push(c).drop_last() =~= x);
                lemma_trim_drop_last(x.push(c));
            }
            lemma_nbt_cons(line, Seq::<Seq<char>>::empty());
            lemma_nbt_cons(x, Seq::<Seq<char>>::empty());
            assert(seq![line] + Seq::<Seq<char>>::empty() =~= seq![line]);
            assert(seq![x] + Seq::<Seq<char>>::empty() =~= seq![x]);
            assert(lines_from(y, pos) =~= seq![line] + Seq::<Seq<char>>::empty());
            assert(lines_from(s, pos) =~= seq![x] + Seq::<Seq<char>>::empty());
        }
    }
}

/// Whitespace at the end of a text keeps the same lines.
proof fn lemma_kept_suffix_ws(s: Seq<char>, w: Seq<char>)
    requires
        all_ws(w),
    ensures
        nonblank_trimmed(lines(s + w)) == nonblank_trimmed(lines(s)),
    decreases w.len(),
{
    if w.len() > 0 {
        let init = w.drop_last();
        assert(all_ws(init)) by {
            assert forall|i: int| 0 <= i < init.len() implies is_ws(#[trigger] init[i]) by {
                assert(init[i] == w[i]);
            }
        }
        lemma_kept_suffix_ws(s, init);
        assert(s + w =~= (s + init) + seq![w.last()]);
        lemma_kept_from_snoc(s + init, w.last(), 0);
    } else {
        assert(s + w =~= s);
    }
}

/// Cleaning keeps exactly the non-blank lines of the block, trimmed, joined
/// by line breaks; a block with no such line cleans to nothing.
pub proof fn law_cleaned_block_lines(block: Seq<char>)
    ensures
        spec_cleaned(block) == (if nonblank_trimmed(lines(block)).len() == 0 {
            None
        } else {
            Some(join(nonblank_trimmed(lines(block)), seq!['\n']))
        }),
        spec_cleaned_opt(None) is None,
{
    let k = Strip::Whitespace;
    lemma_skip_fwd(k, block, 0);
    let a = skip_fwd(k, block, 0);
    let t1 = block.skip(a);
    lemma_skip_back(k, t1, t1.len() as int);
    let e = skip_back(k, t1, t1.len() as int);
    let pre = block.take(a);
    let t = trim(block);
    let post = t1.skip(e);
    assert(t == t1.take(e));
    assert(block =~= pre + (t + post));
    assert(all_ws(pre)) by {
        assert forall|i: int| 0 <= i < pre.len() implies is_ws(#[trigger] pre[i]) by {
            assert(strips(k, block[i]));
        }
    }
    assert(all_ws(post)) by {
        assert forall|i: int| 0 <= i < post.len() implies is_ws(#[trigger] post[i]) by {
            assert(strips(k, t1[e + i]));
        }
    }
    lemma_kept_prefix_ws(pre, t + post);
    lemma_kept_suffix_ws(t, post);
    if t.len() > 0 {
        lemma_trim_shape(block);
        lemma_first_line_nonblank(t);
    } else {
        assert(lines(t) =~= Seq::<Seq<char>>::empty());
    }
}

/// The structured syntax is there exactly when one of the two blocks is not
/// blank; it starts with the user-mode block under its heading when that
/// block is not blank, and ends with the kernel-mode block under its heading
/// when that one is not blank.
pub proof fn law_structured_syntax_keeps_blocks(user: Option<Seq<char>>, kernel: Option<Seq<char>>)
    ensures
        spec_format_structured(user, kernel) is Some <==> (spec_cleaned_opt(user) is Some
            || spec_cleaned_opt(kernel) is Some),
        spec_cleaned_opt(user) matches Some(a) ==> (spec_format_structured(user, kernel) matches Some(
            s,
        ) && s.take(("User-Mode Syntax\n"@ + a).len() as int) == "User-Mode Syntax\n"@ + a),
        spec_cleaned_opt(kernel) matches Some(b) ==> (spec_format_structured(user, kernel) matches Some(
            s,
        ) && s.skip(s.len() - ("Kernel-Mode Syntax\n"@ + b).len()) == "Kernel-Mode Syntax\n"@ + b),
        spec_cleaned_opt(kernel) is None ==> (spec_cleaned_opt(user) matches Some(a)
            ==> spec_format_structured(user, kernel) == Some("User-Mode Syntax\n"@ + a)),
{
    match (spec_cleaned_opt(user), spec_cleaned_opt(kernel)) {
        (Some(a), Some(b)) => {
            let s = "User-Mode Syntax\n"@ + a + "\n\n"@ + "Kernel-Mode Syntax\n"@ + b;
            let u = "User-Mode Syntax\n"@ + a;
            let k = "Kernel-Mode Syntax\n"@ + b;
            assert(s =~= u + ("\n\n"@ + k));
            assert(s.take(u.len() as int) =~= u);
            assert(s =~= (u + "\n\n"@) + k);
            assert(s.skip(s.len() - k.len()) =~= k);
        },
        (Some(a), None) => {
            let u = "User-Mode Syntax\n"@ + a;
            assert(u.take(u.len() as int) =~= u);
        },
        (None, Some(b)) => {
            let k = "Kernel-Mode Syntax\n"@ + b;
            assert(k.skip(0) =~= k);
        },
        (None, None) => {},
    }
}

} // verus!

use windbg_mcp_rs::syntax::{cleaned_block, infer_syntax_block, is_syntax_section_boundary};
use windbg_mcp_rs::search::{normalize_search_term, search_terms};
use windbg_mcp_rs::text::{
    chars_of, contains_chars, is_whitespace, join_strings, lex_lt_chars, lower_char_exec,
    push_decimal, split_lines, split_words, string_of, trim_chars,
};

fn chars(s: &str) -> Vec<char> {
    s.chars().collect()
}

fn texts(v: &[Vec<char>]) -> Vec<String> {
    v.iter().map(|c| c.iter().collect()).collect()
}

const SAMPLES: [&str; 12] = [
    "",
    " ",
    "plain",
    "  lead",
    "trail \t",
    "\u{a0}nbsp\u{2003}",
    "a\nb",
    "a\r\nb\r\n",
    "x\n\n\ny\n",
    "last\r",
    "\r\n",
    "  two  words\there ",
];

#[test]
fn whitespace_matches_the_standard_library() {
    for c in (0u32..=0x10FFFF).filter_map(char::from_u32) {
        assert_eq!(is_whitespace(c), c.is_whitespace(), "{:?}", c);
    }
}

#[test]
fn ascii_lowering_matches_the_standard_library() {
    for c in (0u32..0x3000).filter_map(char::from_u32) {
        assert_eq!(lower_char_exec(c), c.to_ascii_lowercase());
    }
}

#[test]
fn trimming_and_splitting_match_the_standard_library() {
    for s in SAMPLES {
        let cs = chars(s);
        assert_eq!(string_of(&trim_chars(&cs)), s.trim());
        let lines: Vec<String> = s.lines().map(str::to_string).collect();
        assert_eq!(texts(&split_lines(&cs)), lines, "{:?}", s);
        let words: Vec<String> = s.split_whitespace().map(str::to_string).collect();
        assert_eq!(texts(&split_words(&cs)), words, "{:?}", s);
        assert_eq!(chars_of(s), cs);
    }
}

#[test]
fn decimal_rendering() {
    for n in [0usize, 7, 9, 10, 42, 100, 50051, usize::MAX] {
        let mut out = Vec::new();
        push_decimal(&mut out, n);
        assert_eq!(out.iter().collect::<String>(), n.to_string());
    }
}

#[test]
fn ordering_and_containment() {
    let words = ["", "a", "ab", "b", "bp", "bp_bu", "dt", "é", "Z"];
    for a in words {
        for b in words {
            assert_eq!(lex_lt_chars(&chars(a), &chars(b)), a < b, "{a:?} {b:?}");
            assert_eq!(contains_chars(&chars(a), &chars(b)), a.contains(b), "{a:?} {b:?}");
        }
    }
}

#[test]
fn joining() {
    let parts = vec!["bp".to_string(), "bu".to_string(), "bm".to_string()];
    assert_eq!(join_strings(&parts, ", ").iter().collect::<String>(), "bp, bu, bm");
    assert!(join_strings(&Vec::new(), ", ").is_empty());
}

#[test]
fn cleaning_syntax_blocks() {
    assert_eq!(cleaned_block(&chars(" \n \t ")), None);
    let cleaned = cleaned_block(&chars("\n  first  \n\n\n   second\n  \n third \n")).unwrap();
    assert_eq!(cleaned.iter().collect::<String>(), "first\nsecond\nthird");
    assert!(is_syntax_section_boundary(&chars("Parameters")));
    assert!(is_syntax_section_boundary(&chars("Additional Information")));
    assert!(!is_syntax_section_boundary(&chars("parameters")));
    assert_eq!(infer_syntax_block(&chars("")), None);
    let doc = "\n\nTitle\nmore title\n\n\nBody\n\n  syn one\n\nsyn two\nExamples\nignored";
    let inferred = infer_syntax_block(&chars(doc)).unwrap();
    assert_eq!(inferred.iter().collect::<String>(), "syn one\nsyn two");
}

#[test]
fn search_terms_are_trimmed_and_lowered() {
    let terms = search_terms(&chars("  Display (TYPE), <dt>!  -- nt!_PEB?  "));
    assert_eq!(texts(&terms), vec!["display", "type", "<dt>!", "nt!_peb?"]);
    assert_eq!(normalize_search_term(&chars("--")), None);
    assert_eq!(normalize_search_term(&chars("(.Reload)")).unwrap(), chars(".reload"));
}

#[test]
fn cleaning_twice_changes_nothing() {
    for block in ["  a \n\n\t b  \r\n c", "single", "\n\n x\u{a0}\n", " p\r\n\r\nq\r"] {
        let once = cleaned_block(&chars(block)).unwrap();
        let twice = cleaned_block(&once).unwrap();
        assert_eq!(once, twice, "{block:?}");
    }
}

#[test]
fn cleaning_keeps_the_trimmed_nonblank_lines() {
    for block in ["  a \n\n\t b  \r\n c", " \n \r\n", "\u{a0}x\r", "one\n\ntwo\n"] {
        let expected: Vec<&str> = block.lines().map(str::trim).filter(|l| !l.is_empty()).collect();
        let cleaned = cleaned_block(&chars(block)).map(|c| c.iter().collect::<String>());
        if expected.is_empty() {
            assert_eq!(cleaned, None);
        } else {
            assert_eq!(cleaned, Some(expected.join("\n")));
        }
    }
}

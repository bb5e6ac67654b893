use calyx_lsp::diagnostic::CalyxError;
use calyx_lsp::goto_definition::{Frontier, QueryResult};
use calyx_lsp::imports::{join, keep_existing, resolve_all, search_candidates};
use calyx_lsp::text::{last_word_of, newline_split, same_chars, without_quotes, word_before};

fn strings(v: &[&str]) -> Vec<String> {
    v.iter().map(|s| s.to_string()).collect()
}

#[test]
fn newline_split_keeps_empty_pieces() {
    assert_eq!(newline_split("\n").len(), 2);
    assert_eq!(newline_split("\n"), strings(&["", ""]));
    assert_eq!(newline_split("a\nb"), strings(&["a", "b"]));
    assert_eq!(newline_split(""), strings(&[""]));
    assert_eq!(newline_split("ab\n\ncd\n"), strings(&["ab", "", "cd", ""]));
}

#[test]
fn word_before_cursor() {
    assert_eq!(word_before("  a.b", 0, 4), Some("a".to_string()));
    assert_eq!(word_before("x = foo", 0, 7), Some("foo".to_string()));
    assert_eq!(word_before("x = foo", 0, 5), Some("f".to_string()));
    assert_eq!(word_before("one\n  two.", 1, 6), Some("two".to_string()));
    assert_eq!(word_before("one\r\nab", 0, 3), Some("one".to_string()));
    assert_eq!(word_before("   ", 0, 2), None);
    assert_eq!(word_before("abc", 0, 9), None);
    assert_eq!(word_before("abc", 3, 0), None);
}

#[test]
fn last_word_finds_final_run() {
    assert_eq!(last_word_of("a.bc "), Some("bc".to_string()));
    assert_eq!(last_word_of("x_1 y_2"), Some("y_2".to_string()));
    assert_eq!(last_word_of("..."), None);
}

#[test]
fn quotes_are_removed() {
    assert_eq!(without_quotes("\"a.futil\""), "a.futil");
    assert_eq!(without_quotes("plain"), "plain");
}

#[test]
fn same_chars_compares_text() {
    assert!(same_chars("port", "port"));
    assert!(!same_chars("port", "ports"));
    assert!(!same_chars("hole", "hold"));
}

#[test]
fn join_paths() {
    assert_eq!(join("/cur", "foo.futil"), "/cur/foo.futil");
    assert_eq!(join("/cur/", "foo.futil"), "/cur/foo.futil");
    assert_eq!(join("", "foo.futil"), "foo.futil");
    assert_eq!(join("/cur", "/abs/foo.futil"), "/abs/foo.futil");
}

#[test]
fn candidates_in_priority_order() {
    let libs = strings(&["/lib"]);
    let imports = strings(&["foo.futil"]);
    let c = search_candidates("/cur", &libs, &imports);
    assert_eq!(c, strings(&["/cur/foo.futil", "/lib/foo.futil"]));
    assert_eq!(keep_existing(&c, &vec![true, true]), c);
    assert_eq!(keep_existing(&c, &vec![false, true]), strings(&["/lib/foo.futil"]));
    assert!(keep_existing(&c, &vec![false, false]).is_empty());
}

#[test]
fn candidates_import_by_import() {
    let libs = strings(&["/l1", "/l2"]);
    let imports = strings(&["a.futil", "b.futil"]);
    let c = search_candidates("/cur", &libs, &imports);
    assert_eq!(
        c,
        strings(&[
            "/cur/a.futil",
            "/l1/a.futil",
            "/l2/a.futil",
            "/cur/b.futil",
            "/l1/b.futil",
            "/l2/b.futil",
        ])
    );
    assert!(search_candidates("/cur", &libs, &Vec::new()).is_empty());
}

#[test]
fn resolution_keeps_absolute_paths() {
    let r = resolve_all(&strings(&["/abs/x.futil"]));
    assert_eq!(r, strings(&["/abs/x.futil"]));
}

#[test]
fn resolution_anchors_relative_paths() {
    let r = resolve_all(&strings(&["x.futil"]));
    assert_eq!(r.len(), 1);
    assert!(r[0].starts_with('/'));
    assert!(r[0].ends_with("x.futil"));
    assert_ne!(r[0], "x.futil");
}

#[test]
fn frontier_takes_from_the_end_and_skips_visited() {
    let mut f = Frontier::new(&strings(&["/a", "/b"]));
    assert_eq!(f.next_path(), Some("/b".to_string()));
    f.add_paths(&strings(&["/a", "/c"]));
    assert_eq!(f.next_path(), Some("/c".to_string()));
    assert_eq!(f.next_path(), Some("/a".to_string()));
    f.add_paths(&strings(&["/b", "/a"]));
    assert_eq!(f.next_path(), None);
}

#[test]
fn frontier_ends_on_import_cycle() {
    let mut f = Frontier::new(&strings(&["/x"]));
    let mut visits = 0;
    while let Some(p) = f.next_path() {
        visits += 1;
        let next: QueryResult<(), String> = if p == "/x" {
            QueryResult::ContinueSearch(strings(&["/y"]), "K".to_string())
        } else {
            QueryResult::ContinueSearch(strings(&["/x"]), "K".to_string())
        };
        assert!(f.absorb(next).is_none());
    }
    assert_eq!(visits, 2);
}

#[test]
fn frontier_stops_on_answer() {
    let mut f = Frontier::new(&strings(&["/x"]));
    assert_eq!(f.absorb(QueryResult::<u8, String>::Found(7)), Some(7));
}

#[test]
fn calyx_error_holds_fields() {
    let e = CalyxError {
        file_name: "a.futil".to_string(),
        pos_start: 3,
        pos_end: 9,
        msg: "bad".to_string(),
    };
    assert_eq!(e.clone(), e);
    assert_eq!(e.pos_end - e.pos_start, 6);
}

use kak_tree_sitter::Outcome;
use kak_tree_sitter::RequestHandler;
use kak_tree_sitter::Step;
use kak_tree_sitter::handler::parse_text;

fn payload(session: &str, buffer: &str, language: &str, path: &str) -> String {
    kak_tree_sitter::encode(&kak_tree_sitter::Request::Highlight {
        session: session.to_owned(),
        buffer: buffer.to_owned(),
        language: language.to_owned(),
        path: path.to_owned(),
    })
}

#[test]
fn new_handler_has_empty_cache() {
    let h = RequestHandler::new();
    assert_eq!(h.cached_count(), 0);
    assert!(h.get_tree("s1", "b1").is_none());
}

#[test]
fn cache_replacement_keeps_one_entry_with_second_tree() {
    let lang = tree_sitter_rust::language();
    let first = "fn a(){}";
    let second = "fn a(){} fn b(){}";
    let t1 = parse_text(&lang, first).expect("first parse");
    let t2 = parse_text(&lang, second).expect("second parse");

    let mut h = RequestHandler::new();
    assert_eq!(h.apply_parse("s1".to_owned(), "b1".to_owned(), Some(t1)), Outcome::Parsed);
    assert_eq!(h.apply_parse("s1".to_owned(), "b1".to_owned(), Some(t2)), Outcome::Parsed);

    assert_eq!(h.cached_count(), 1);
    let tree = h.get_tree("s1", "b1").expect("entry for the key");
    assert_eq!(tree.root_node().end_byte(), second.len());
}

#[test]
fn cache_isolation_between_sessions() {
    let lang = tree_sitter_rust::language();
    let text1 = "fn one(){}";
    let text2 = "fn one(){} fn two(){}";
    let t1 = parse_text(&lang, text1).expect("parse");
    let t2 = parse_text(&lang, text2).expect("parse");

    let mut h = RequestHandler::new();
    h.apply_parse("s1".to_owned(), "b".to_owned(), Some(t1));
    h.apply_parse("s2".to_owned(), "b".to_owned(), Some(t2));
    assert_eq!(h.cached_count(), 2);

    // Replacing session s1's tree leaves session s2's untouched.
    let t3 = parse_text(&lang, "fn three(){}").expect("parse");
    h.apply_parse("s1".to_owned(), "b".to_owned(), Some(t3));
    assert_eq!(h.cached_count(), 2);
    let kept = h.get_tree("s2", "b").expect("s2 entry");
    assert_eq!(kept.root_node().end_byte(), text2.len());
    let replaced = h.get_tree("s1", "b").expect("s1 entry");
    assert_eq!(replaced.root_node().end_byte(), "fn three(){}".len());
}

#[test]
fn unknown_language_is_a_no_op() {
    let mut h = RequestHandler::new();
    let p = payload("s1", "b1", "nosuchlang", "/tmp/f.rs");
    let step = h.handle_request(&p);
    assert!(matches!(step, Step::UnknownLanguage));
    assert_eq!(h.cached_count(), 0);
}

#[test]
fn decode_failure_leaves_loop_serviceable() {
    let mut h = RequestHandler::new();
    let step = h.handle_request("this is not a request");
    assert!(matches!(step, Step::Reject));
    assert_eq!(h.cached_count(), 0);

    // A well-formed request right after still goes through.
    let p = payload("s1", "b1", "rust", "/tmp/f.rs");
    match h.handle_request(&p) {
        Step::ReadFile { session, buffer, language, path } => {
            assert_eq!(session, "s1");
            assert_eq!(buffer, "b1");
            assert_eq!(path, "/tmp/f.rs");
            let o = h.finish_highlight(session, buffer, &language, Some("fn f(){}".to_owned()));
            assert_eq!(o, Outcome::Parsed);
        },
        _ => panic!("well-formed request not dispatched"),
    }
    assert_eq!(h.cached_count(), 1);
}

#[test]
fn empty_payload_is_the_shutdown_sentinel() {
    let h = RequestHandler::new();
    assert!(matches!(h.handle_request(""), Step::Stop));
    // Anything non-empty is not the sentinel.
    assert!(!matches!(h.handle_request("x"), Step::Stop));
}

#[test]
fn read_failure_leaves_cache_unchanged() {
    let lang = tree_sitter_rust::language();
    let mut h = RequestHandler::new();
    let o = h.finish_highlight("s1".to_owned(), "b1".to_owned(), &lang, None);
    assert_eq!(o, Outcome::ReadFailed);
    assert_eq!(h.cached_count(), 0);
}

#[test]
fn highlight_scenario_caches_a_function_tree() {
    let content = "fn f(){}";
    let p = payload("s1", "b1", "rust-like", "/tmp/f.rs");
    let mut h = RequestHandler::new();
    match h.handle_request(&p) {
        Step::ReadFile { session, buffer, language, path } => {
            assert_eq!(session, "s1");
            assert_eq!(buffer, "b1");
            assert_eq!(path, "/tmp/f.rs");
            let o = h.finish_highlight(session, buffer, &language, Some(content.to_owned()));
            assert_eq!(o, Outcome::Parsed);
        },
        _ => panic!("highlight request not dispatched"),
    }
    assert_eq!(h.cached_count(), 1);
    let tree = h.get_tree("s1", "b1").expect("cache entry at (s1, b1)");
    let root = tree.root_node();
    assert_eq!(root.start_byte(), 0);
    assert_eq!(root.end_byte(), content.len());
    assert!(root.child_count() >= 1);
    assert_eq!(root.child(0).expect("one child").kind(), "function_item");
}

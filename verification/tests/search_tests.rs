use json_tree_search::ids::{DefaultIdMaker, IdSet, PersistentIdMaker};
use json_tree_search::search::SearchTerm;
use json_tree_search::tree::{ExpandableType, JsonPointerSegment, TreeValue};

fn key(s: &str) -> JsonPointerSegment {
    JsonPointerSegment::Key(String::from(s))
}

fn idx(i: usize) -> JsonPointerSegment {
    JsonPointerSegment::Index(i)
}

fn base(s: &str) -> TreeValue {
    TreeValue::Base(String::from(s))
}

fn obj(entries: Vec<(JsonPointerSegment, TreeValue)>) -> TreeValue {
    TreeValue::Expandable(entries, ExpandableType::Object)
}

fn arr(children: Vec<TreeValue>) -> TreeValue {
    let mut entries = Vec::new();
    for (i, c) in children.into_iter().enumerate() {
        entries.push((idx(i), c));
    }
    TreeValue::Expandable(entries, ExpandableType::Array)
}

fn id_of(path: &[JsonPointerSegment]) -> u64 {
    DefaultIdMaker.make_persistent_id(path)
}

/// The tree of the end-to-end scenario:
/// {"foo": [1, 2, [3]], "bar": {"qux": false, "thud": {"a/b": [4, 5, {"m~n": "Greetings!"}]},
///  "grep": 21}, "baz": null}
fn scenario_tree() -> TreeValue {
    obj(vec![
        (key("foo"), arr(vec![base("1"), base("2"), arr(vec![base("3")])])),
        (
            key("bar"),
            obj(vec![
                (key("qux"), base("false")),
                (
                    key("thud"),
                    obj(vec![(
                        key("a/b"),
                        arr(vec![
                            base("4"),
                            base("5"),
                            obj(vec![(key("m~n"), base("Greetings!"))]),
                        ]),
                    )]),
                ),
                (key("grep"), base("21")),
            ]),
        ),
        (key("baz"), base("null")),
    ])
}

fn run_search(term: &str, tree: &TreeValue, abbreviate_root: bool) -> (IdSet, IdSet) {
    let term = SearchTerm::parse(term).expect("non-empty search term");
    let mut reset_path_ids = IdSet::new();
    let matches =
        term.find_matching_paths_in(tree, abbreviate_root, &DefaultIdMaker, &mut reset_path_ids);
    (matches, reset_path_ids)
}

#[test]
fn test_search_populates_all_collapsing_state_ids_in_response() {
    let value = scenario_tree();
    let (matches, _reset) = run_search("g", &value, true);
    assert_eq!(matches.len(), 7);
}

#[test]
fn test_end_to_end_scenario_exact_ids() {
    let value = scenario_tree();
    let (matches, _reset) = run_search("g", &value, true);
    // Exactly the identifiers of every prefix of the two matching paths:
    // ["bar", "grep"] (key match) and ["bar", "thud", "a/b", 2, "m~n"] (value match).
    let expected: Vec<Vec<JsonPointerSegment>> = vec![
        vec![],
        vec![key("bar")],
        vec![key("bar"), key("grep")],
        vec![key("bar"), key("thud")],
        vec![key("bar"), key("thud"), key("a/b")],
        vec![key("bar"), key("thud"), key("a/b"), idx(2)],
        vec![key("bar"), key("thud"), key("a/b"), idx(2), key("m~n")],
    ];
    assert_eq!(matches.len(), 7);
    for path in &expected {
        assert!(matches.contains(id_of(path)));
    }
}

#[test]
fn test_parse_rejects_empty_and_lowercases() {
    assert!(SearchTerm::parse("").is_none());
    assert!(!SearchTerm::is_valid(""));
    assert!(SearchTerm::is_valid(" "));
    let term = SearchTerm::parse("FoO Bar").unwrap();
    assert_eq!(term.len(), 7);
    // The stored form is the ASCII-lowercased input: it matches text that
    // contains "foo bar" in any casing, and nothing else.
    assert!(term.matches("xxFOO BARyy"));
    assert!(term.matches("foo bar"));
    assert!(!term.matches("foobar"));
}

#[test]
fn test_whitespace_term_is_valid_and_matches_literally() {
    let term = SearchTerm::parse("  ").unwrap();
    assert_eq!(term.len(), 2);
    assert!(term.matches("a  b"));
    assert!(!term.matches("a b"));
}

#[test]
fn test_case_insensitivity_of_query_and_text() {
    for text in ["xfOoY", "xfooy", "nothing", "FOO", "fo"] {
        let lower = SearchTerm::parse("foo").unwrap().matches(text);
        let upper = SearchTerm::parse("FOO").unwrap().matches(&text.to_lowercase());
        assert_eq!(lower, upper);
    }
}

#[test]
fn test_ancestor_closure_registers_every_prefix() {
    // {"a": {"b": [ "needle" ]}} with term "need": the lone match sits at
    // ["a", "b", 0]; every prefix of that path is registered, nothing else.
    let value = obj(vec![(key("a"), obj(vec![(key("b"), arr(vec![base("needle")]))]))]);
    let (matches, _reset) = run_search("NEED", &value, false);
    assert_eq!(matches.len(), 4);
    assert!(matches.contains(id_of(&[])));
    assert!(matches.contains(id_of(&[key("a")])));
    assert!(matches.contains(id_of(&[key("a"), key("b")])));
    assert!(matches.contains(id_of(&[key("a"), key("b"), idx(0)])));
}

#[test]
fn test_array_indices_never_match() {
    // Term "2" against an array whose third slot sits at index 2: the index
    // itself registers nothing.
    let value = obj(vec![(key("a"), arr(vec![base("x"), base("y"), base("z")]))]);
    let (matches, _reset) = run_search("2", &value, true);
    assert_eq!(matches.len(), 0);

    // A display value containing "2" still matches, wherever it sits.
    let value = obj(vec![(key("a"), arr(vec![base("x"), base("y"), base("2")]))]);
    let (matches, _reset) = run_search("2", &value, true);
    assert_eq!(matches.len(), 3);
    assert!(matches.contains(id_of(&[])));
    assert!(matches.contains(id_of(&[key("a")])));
    assert!(matches.contains(id_of(&[key("a"), idx(2)])));
}

#[test]
fn test_single_root_match_is_suppressed() {
    // A bare top-level value is the only match: the identifier set holds just
    // the root, and with abbreviate_root = false it is cleared entirely.
    let value = base("foo");
    let (matches, _reset) = run_search("foo", &value, false);
    assert_eq!(matches.len(), 0);

    let (matches, _reset) = run_search("foo", &value, true);
    assert_eq!(matches.len(), 1);
    assert!(matches.contains(id_of(&[])));
}

#[test]
fn test_top_level_key_match_registers_root_and_key() {
    // {"foo": 1, "bar": 2} with term "foo": the key match registers the root
    // and the full path to the key, so two identifiers stay.
    let value = obj(vec![(key("foo"), base("1")), (key("bar"), base("2"))]);
    let (matches, _reset) = run_search("foo", &value, false);
    assert_eq!(matches.len(), 2);
    assert!(matches.contains(id_of(&[])));
    assert!(matches.contains(id_of(&[key("foo")])));
}

#[test]
fn test_reset_ids_cover_exactly_the_expandable_children() {
    // {"a": [1, 2, {"b": 3}]}: the array at ["a"] and the object at ["a", 2]
    // are the only expandable nodes below the root.
    let value = obj(vec![(
        key("a"),
        arr(vec![base("1"), base("2"), obj(vec![(key("b"), base("3"))])]),
    )]);
    let (_matches, reset) = run_search("zzz", &value, false);
    assert_eq!(reset.len(), 2);
    assert!(reset.contains(id_of(&[key("a")])));
    assert!(reset.contains(id_of(&[key("a"), idx(2)])));
    assert!(!reset.contains(id_of(&[])));
    assert!(!reset.contains(id_of(&[key("a"), idx(0)])));
    assert!(!reset.contains(id_of(&[key("a"), idx(1)])));
    assert!(!reset.contains(id_of(&[key("a"), idx(2), key("b")])));
}

#[test]
fn test_reset_ids_do_not_depend_on_matching() {
    let value = obj(vec![(
        key("a"),
        arr(vec![base("1"), base("2"), obj(vec![(key("b"), base("3"))])]),
    )]);
    let (_m1, reset_miss) = run_search("zzz", &value, false);
    let (_m2, reset_hit) = run_search("b", &value, false);
    assert_eq!(reset_miss.len(), reset_hit.len());
    assert!(reset_hit.contains(id_of(&[key("a")])));
    assert!(reset_hit.contains(id_of(&[key("a"), idx(2)])));
}

#[test]
fn test_empty_container_yields_nothing() {
    let value = obj(vec![]);
    let (matches, reset) = run_search("anything", &value, true);
    assert_eq!(matches.len(), 0);
    assert_eq!(reset.len(), 0);
}

#[test]
fn test_duplicate_keys_each_register() {
    let value = obj(vec![(key("a"), base("1")), (key("a"), base("2"))]);
    let (matches, _reset) = run_search("a", &value, true);
    // Both occurrences match on the same path, so the identifiers coincide.
    assert_eq!(matches.len(), 2);
    assert!(matches.contains(id_of(&[])));
    assert!(matches.contains(id_of(&[key("a")])));
}

#[test]
fn test_find_match_indices_are_left_to_right_without_overlap() {
    let term = SearchTerm::parse("AB").unwrap();
    assert_eq!(term.find_match_indices_in("xABAbaby"), vec![1usize, 3, 5]);
    let term = SearchTerm::parse("aa").unwrap();
    assert_eq!(term.find_match_indices_in("aaaa"), vec![0usize, 2]);
    let term = SearchTerm::parse("nope").unwrap();
    assert_eq!(term.find_match_indices_in("aaaa"), Vec::<usize>::new());
}

#[test]
fn test_id_set_semantics() {
    let mut s = IdSet::new();
    assert_eq!(s.len(), 0);
    s.insert(7);
    s.insert(7);
    s.insert(9);
    assert_eq!(s.len(), 2);
    assert!(s.contains(7));
    assert!(s.contains(9));
    assert!(!s.contains(8));
    s.clear();
    assert_eq!(s.len(), 0);
    assert!(!s.contains(7));
}

#[test]
fn test_id_set_to_vec_lists_each_member_once() {
    let mut s = IdSet::new();
    s.insert(3);
    s.insert(1);
    s.insert(3);
    let mut v = s.to_vec();
    v.sort();
    assert_eq!(v, vec![1u64, 3]);
}

#[test]
fn test_id_maker_is_deterministic_and_separates_paths() {
    let a = id_of(&[key("a"), idx(1)]);
    let b = id_of(&[key("a"), idx(1)]);
    assert_eq!(a, b);
    // An index segment is told apart from a key holding the same digits.
    assert_ne!(id_of(&[idx(1)]), id_of(&[key("1")]));
    assert_ne!(id_of(&[]), id_of(&[key("a")]));
}

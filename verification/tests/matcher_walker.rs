use vectorizer::errors::Error;
use vectorizer::matcher::Matcher;
use vectorizer::matcher::MatcherKind;
use vectorizer::walker::FileWalker;
use vectorizer::walker::FsNode;
use vectorizer::walker::WalkConfig;

fn matcher_for(rules: &[&str]) -> Matcher {
    let rules: Vec<String> = rules.iter().map(|r| r.to_string()).collect();
    let compiled = Matcher::create_matcher(&rules).expect("rules should compile");
    Matcher::new(MatcherKind::Exclude(compiled))
}

fn file(name: &str) -> FsNode {
    FsNode::File { name: name.to_string() }
}

fn dir(name: &str, entries: Vec<FsNode>) -> FsNode {
    FsNode::Dir { name: name.to_string(), entries }
}

fn walk(entries: Vec<FsNode>, extensions: &[&str], rules: &[&str]) -> Vec<String> {
    let cfg = WalkConfig {
        extensions: extensions.iter().map(|e| e.to_string()).collect(),
        matcher: matcher_for(rules),
    };
    let walker = FileWalker::new(&"root".to_string());
    walker.walk_files(&entries, &cfg)
}

#[test]
fn negated_rule_overrides_earlier_exclusion() {
    let m = matcher_for(&["*.log", "!important.log"]);
    assert!(!m.matches("important.log", false));
    assert!(m.matches("debug.log", false));
    assert!(m.should_include("important.log"));
    assert!(!m.should_include("debug.log"));
}

#[test]
fn empty_rule_set_excludes_nothing() {
    let m = matcher_for(&[]);
    assert!(!m.matches("anything.txt", false));
    assert!(!m.matches("deep/path/file.rs", true));
}

#[test]
fn invalid_rule_fails_fast_at_compilation() {
    let rules: Vec<String> = vec!["[oops".to_string()];
    match Matcher::create_matcher(&rules) {
        Err(Error::Pattern(_)) => {}
        other => panic!("expected a pattern error, got {:?}", other.is_ok()),
    }
    let rules: Vec<String> = vec!["".to_string()];
    assert!(Matcher::create_matcher(&rules).is_err());
    let rules: Vec<String> = vec!["!".to_string()];
    assert!(Matcher::create_matcher(&rules).is_err());
}

#[test]
fn directory_only_rule_ignores_files() {
    let m = matcher_for(&["build/"]);
    assert!(m.matches("build", true));
    assert!(!m.matches("build", false));
}

#[test]
fn anchored_rule_matches_whole_relative_path() {
    let m = matcher_for(&["src/*.rs"]);
    assert!(m.matches("src/main.rs", false));
    assert!(!m.matches("other/main.rs", false));
}

#[test]
fn unanchored_rule_matches_base_name_at_any_depth() {
    let m = matcher_for(&["*.md"]);
    assert!(m.matches("docs/guide.md", false));
    assert!(m.matches("guide.md", false));
    assert!(!m.matches("guide.txt", false));
}

#[test]
fn question_mark_matches_one_character() {
    let m = matcher_for(&["?.txt"]);
    assert!(m.matches("a.txt", false));
    assert!(!m.matches("ab.txt", false));
}

#[test]
fn hidden_directory_is_pruned_even_with_matching_extension() {
    let tree = vec![
        dir(".git", vec![file("config.md")]),
        file("readme.md"),
    ];
    let accepted = walk(tree, &["md"], &[]);
    assert_eq!(accepted, vec!["readme.md"]);
}

#[test]
fn hidden_file_is_skipped() {
    let tree = vec![file(".hidden.md"), file("visible.md")];
    let accepted = walk(tree, &["md"], &[]);
    assert_eq!(accepted, vec!["visible.md"]);
}

#[test]
fn extension_allow_list_filters_files() {
    let tree = vec![file("a.md"), file("b.txt"), file("noext")];
    let accepted = walk(tree, &["md"], &[]);
    assert_eq!(accepted, vec!["a.md"]);
}

#[test]
fn wildcard_extension_admits_everything_visible() {
    let tree = vec![file("a.md"), file("b.txt"), file("noext")];
    let accepted = walk(tree, &["*"], &[]);
    assert_eq!(accepted, vec!["a.md", "b.txt", "noext"]);
}

#[test]
fn empty_extension_list_admits_everything_visible() {
    let tree = vec![file("a.md"), file("b.txt")];
    let accepted = walk(tree, &[], &[]);
    assert_eq!(accepted, vec!["a.md", "b.txt"]);
}

#[test]
fn walk_emits_paths_relative_to_the_root() {
    let tree = vec![dir("src", vec![dir("sub", vec![file("x.rs")]), file("y.rs")])];
    let accepted = walk(tree, &["rs"], &[]);
    assert_eq!(accepted, vec!["src/sub/x.rs", "src/y.rs"]);
}

#[test]
fn excluded_directory_prunes_its_subtree() {
    let tree = vec![
        dir("target", vec![file("out.md")]),
        dir("docs", vec![file("guide.md")]),
    ];
    let accepted = walk(tree, &["md"], &["target/"]);
    assert_eq!(accepted, vec!["docs/guide.md"]);
}

#[test]
fn ignore_rules_with_negation_in_a_walk() {
    let tree = vec![file("important.log"), file("debug.log"), file("notes.txt")];
    let accepted = walk(tree, &[], &["*.log", "!important.log"]);
    assert_eq!(accepted, vec!["important.log", "notes.txt"]);
}

#[test]
fn file_walker_keeps_its_root_path() {
    let walker = FileWalker::new(&"some/root".to_string());
    assert_eq!(walker.path, "some/root");
}

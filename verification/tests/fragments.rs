use vectorizer::fragments::clamp_budget;
use vectorizer::fragments::create_fragments_from_text;
use vectorizer::fragments::fragment;
use vectorizer::fragments::tokenizer;
use vectorizer::fragments::MAX_TOKENS;
use vectorizer::settings::SettingValue;
use vectorizer::settings::Settings;

#[test]
fn tokenizer_splits_on_spaces() {
    assert_eq!(tokenizer("one two three"), vec!["one", "two", "three"]);
}

#[test]
fn tokenizer_collapses_space_runs() {
    assert_eq!(tokenizer("  a   b "), vec!["a", "b"]);
}

#[test]
fn tokenizer_empty_text_has_no_tokens() {
    assert_eq!(tokenizer(""), Vec::<&str>::new());
    assert_eq!(tokenizer("   "), Vec::<&str>::new());
}

#[test]
fn fragment_budget_two() {
    let frags = fragment("one two three four five", 2);
    assert_eq!(frags, vec!["one two", "three four", "five"]);
}

#[test]
fn fragment_exact_multiple() {
    let frags = fragment("a b c d", 2);
    assert_eq!(frags, vec!["a b", "c d"]);
}

#[test]
fn fragment_budget_larger_than_text() {
    let frags = fragment("a b c", 10);
    assert_eq!(frags, vec!["a b c"]);
}

#[test]
fn fragment_empty_text_yields_no_fragments() {
    assert_eq!(fragment("", 4), Vec::<String>::new());
}

#[test]
fn rejoining_fragments_recovers_tokenization() {
    let text = "  the quick  brown fox jumps over the lazy dog ";
    let frags = fragment(text, 3);
    let rejoined = frags.join(" ");
    assert_eq!(tokenizer(&rejoined), tokenizer(text));
}

#[test]
fn budget_zero_is_clamped_to_ceiling() {
    assert_eq!(clamp_budget(0), MAX_TOKENS);
}

#[test]
fn budget_above_ceiling_is_clamped_to_ceiling() {
    assert_eq!(clamp_budget(MAX_TOKENS + 1), MAX_TOKENS);
    assert_eq!(clamp_budget(usize::MAX), MAX_TOKENS);
}

#[test]
fn budget_in_range_is_kept() {
    assert_eq!(clamp_budget(1), 1);
    assert_eq!(clamp_budget(10), 10);
    assert_eq!(clamp_budget(MAX_TOKENS), MAX_TOKENS);
}

#[test]
fn settings_budget_negative_means_ceiling() {
    let mut settings = Settings::new();
    settings.set("database.max_tokens", SettingValue::Int(-5));
    let frags = create_fragments_from_text("a b c".to_string(), &settings);
    assert_eq!(frags, vec!["a b c"]);
}

#[test]
fn settings_budget_in_range_is_used() {
    let mut settings = Settings::new();
    settings.set("database.max_tokens", SettingValue::Int(2));
    let frags = create_fragments_from_text("one two three four five".to_string(), &settings);
    assert_eq!(frags, vec!["one two", "three four", "five"]);
}

#[test]
fn settings_budget_absent_means_ceiling() {
    let settings = Settings::new();
    let frags = create_fragments_from_text("a b".to_string(), &settings);
    assert_eq!(frags, vec!["a b"]);
}

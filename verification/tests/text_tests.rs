use revise::error::ReviseError;
use revise::frontmatter::{fm_get, parse_yaml_frontmatter, validate_authored};
use revise::strutil::{str_contains, str_eq, trim, u64_to_string};
use revise::utils::{date_to_relative_string, day_diff, relative_day_phrase};

const DAY: i64 = 86400;

#[test]
fn parse_frontmatter_reads_the_fenced_header() {
    let text = "---\ntitle: Hello\ndeck: langs \n---\nbody text: not a field\n";
    let pairs = parse_yaml_frontmatter(text);
    assert_eq!(pairs.len(), 2);
    assert_eq!(pairs[0], ("title".to_string(), "Hello".to_string()));
    assert_eq!(pairs[1], ("deck".to_string(), "langs".to_string()));
}

#[test]
fn parse_frontmatter_last_occurrence_wins() {
    let text = "---\nkey: first\nkey: second\n---\n";
    let pairs = parse_yaml_frontmatter(text);
    assert_eq!(fm_get(&pairs, "key"), Some("second".to_string()));
    assert_eq!(fm_get(&pairs, "missing"), None);
}

#[test]
fn parse_frontmatter_ignores_text_outside_the_fence() {
    let text = "before: no\n---\ntitle: T\n---\nafter: no\n";
    let pairs = parse_yaml_frontmatter(text);
    assert_eq!(pairs.len(), 1);
    assert_eq!(pairs[0].0, "title");
}

#[test]
fn validate_authored_accepts_complete_headers() {
    let text = "---\ntitle:  My card \ndeck: maths\n---\nthe body\n";
    let (title, deck) = validate_authored(text).unwrap();
    assert_eq!(title, "My card");
    assert_eq!(deck, "maths");
}

#[test]
fn validate_authored_rejects_missing_or_blank_fields() {
    assert_eq!(
        validate_authored("---\ndeck: d\n---\n"),
        Err(ReviseError::ValidationFailure)
    );
    assert_eq!(
        validate_authored("---\ntitle: t\n---\n"),
        Err(ReviseError::ValidationFailure)
    );
    assert_eq!(
        validate_authored("---\ntitle:   \ndeck: d\n---\n"),
        Err(ReviseError::ValidationFailure)
    );
    assert_eq!(validate_authored("no header at all"), Err(ReviseError::ValidationFailure));
}

#[test]
fn substring_search_is_case_sensitive() {
    assert!(str_contains("a foo b", "foo"));
    assert!(!str_contains("a Foo b", "foo"));
    assert!(str_contains("anything", ""));
    assert!(!str_contains("ab", "abc"));
    assert!(str_contains("abc", "abc"));
}

#[test]
fn trim_and_equality() {
    assert_eq!(trim("  hi \t\r\n"), "hi");
    assert_eq!(trim("   "), "");
    assert_eq!(trim("x"), "x");
    assert!(str_eq("same", "same"));
    assert!(!str_eq("same", "sane"));
}

#[test]
fn decimal_rendering() {
    assert_eq!(u64_to_string(0), "0");
    assert_eq!(u64_to_string(7), "7");
    assert_eq!(u64_to_string(1234567890), "1234567890");
}

#[test]
fn day_differences_and_phrases() {
    assert_eq!(day_diff(0, 3 * DAY + 5), 3);
    assert_eq!(day_diff(3 * DAY, 0), -3);
    assert_eq!(day_diff(10, 20), 0);
    assert_eq!(relative_day_phrase(142), "142 days ago");
    assert_eq!(relative_day_phrase(0), "today");
    assert_eq!(relative_day_phrase(-2), "in 2 days");
}

#[test]
fn relative_date_string_ends_with_the_phrase() {
    let s = date_to_relative_string(0, 3 * DAY);
    assert!(s.ends_with("  3 days ago"));
    let t = date_to_relative_string(5 * DAY, 5 * DAY);
    assert!(t.ends_with("  today"));
    let u = date_to_relative_string(9 * DAY, 7 * DAY);
    assert!(u.ends_with("  in 2 days"));
}

#[test]
fn default_data_path_appends_the_store_file() {
    assert_eq!(
        revise::store::default_data_path("/home/u/.local/share/revise"),
        "/home/u/.local/share/revise/data.sqlite"
    );
}

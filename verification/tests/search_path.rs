use path_shadows::search_path::{resolve_source, split_search_path, SourceUnavailable, SEPARATOR};
use path_shadows::text::same_text;

#[test]
fn separator_is_a_colon() {
    assert_eq!(SEPARATOR, ':');
}

#[test]
fn split_keeps_the_order_of_the_entries() {
    assert_eq!(split_search_path("/a:/b"), vec!["/a".to_string(), "/b".to_string()]);
    assert_eq!(
        split_search_path("/usr/local/bin:/usr/bin:/bin"),
        vec!["/usr/local/bin".to_string(), "/usr/bin".to_string(), "/bin".to_string()]
    );
}

#[test]
fn split_of_a_single_entry() {
    assert_eq!(split_search_path("/usr/bin"), vec!["/usr/bin".to_string()]);
}

#[test]
fn split_of_the_empty_text_is_one_empty_entry() {
    assert_eq!(split_search_path(""), vec![String::new()]);
}

#[test]
fn split_keeps_empty_entries() {
    assert_eq!(
        split_search_path("/a::/b"),
        vec!["/a".to_string(), String::new(), "/b".to_string()]
    );
    assert_eq!(
        split_search_path(":/a:"),
        vec![String::new(), "/a".to_string(), String::new()]
    );
    assert_eq!(split_search_path(":"), vec![String::new(), String::new()]);
}

#[test]
fn split_counts_characters_not_bytes() {
    assert_eq!(
        split_search_path("/ä/ö:/日本:/b"),
        vec!["/ä/ö".to_string(), "/日本".to_string(), "/b".to_string()]
    );
}

#[test]
fn split_agrees_with_the_standard_library() {
    for raw in ["", ":", "a", "a:b", "::", "/x:/y:", ":/x::/y", "é:ü:"] {
        let expected: Vec<String> = raw.split(':').map(|piece| piece.to_string()).collect();
        assert_eq!(split_search_path(raw), expected);
        assert_eq!(split_search_path(raw).join(":"), raw);
    }
}

#[test]
fn explicit_source_is_preferred() {
    assert_eq!(
        resolve_source(Some("/given".to_string()), Some("/inherited".to_string())),
        Ok("/given".to_string())
    );
    assert_eq!(resolve_source(Some("/given".to_string()), None), Ok("/given".to_string()));
}

#[test]
fn environment_is_the_fallback() {
    assert_eq!(resolve_source(None, Some("/inherited".to_string())), Ok("/inherited".to_string()));
}

#[test]
fn no_source_is_an_error() {
    assert_eq!(resolve_source(None, None), Err(SourceUnavailable));
}

#[test]
fn same_text_compares_characters() {
    assert!(same_text("", ""));
    assert!(same_text("tool", "tool"));
    assert!(same_text("日本", "日本"));
    assert!(!same_text("tool", "tool "));
    assert!(!same_text("tool", "toal"));
    assert!(!same_text("", "a"));
}

use path_shadows::policy::ShowSameFiles;

#[test]
fn show_same_is_off_only_for_false() {
    assert!(!ShowSameFiles::False.show_same());
    assert!(ShowSameFiles::True.show_same());
    assert!(ShowSameFiles::Only.show_same());
}

#[test]
fn show_diff_is_off_only_for_only() {
    assert!(ShowSameFiles::False.show_diff());
    assert!(ShowSameFiles::True.show_diff());
    assert!(!ShowSameFiles::Only.show_diff());
}

#[test]
fn false_shows_exactly_the_different_files() {
    assert!(ShowSameFiles::False.shows(false));
    assert!(!ShowSameFiles::False.shows(true));
}

#[test]
fn true_shows_everything() {
    assert!(ShowSameFiles::True.shows(false));
    assert!(ShowSameFiles::True.shows(true));
}

#[test]
fn only_shows_exactly_the_same_files() {
    assert!(!ShowSameFiles::Only.shows(false));
    assert!(ShowSameFiles::Only.shows(true));
}

#[test]
fn from_str_reads_the_three_names() {
    assert_eq!(ShowSameFiles::from_str("false"), Ok(ShowSameFiles::False));
    assert_eq!(ShowSameFiles::from_str("true"), Ok(ShowSameFiles::True));
    assert_eq!(ShowSameFiles::from_str("only"), Ok(ShowSameFiles::Only));
}

#[test]
fn from_str_refuses_anything_else() {
    assert_eq!(ShowSameFiles::from_str(""), Err("invalid option"));
    assert_eq!(ShowSameFiles::from_str("True"), Err("invalid option"));
    assert_eq!(ShowSameFiles::from_str("onl"), Err("invalid option"));
    assert_eq!(ShowSameFiles::from_str("only "), Err("invalid option"));
    assert_eq!(ShowSameFiles::from_str("yes"), Err("invalid option"));
    assert_eq!(ShowSameFiles::from_str("fälse"), Err("invalid option"));
}

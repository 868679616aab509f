use path_shadows::report::{Channel, OutputLine};

#[test]
fn a_report_line_goes_to_the_results() {
    let line = OutputLine::report("/a/tool:/b/tool".to_string());
    assert_eq!(line.channel, Channel::Report);
    assert_eq!(line.text, "/a/tool:/b/tool");
    assert!(!line.is_diagnostic());
}

#[test]
fn a_diagnostic_line_is_told_apart_from_a_result() {
    let line = OutputLine::diagnostic("Can not read file: stale".to_string());
    assert_eq!(line.channel, Channel::Diagnostic);
    assert_eq!(line.text, "Can not read file: stale");
    assert!(line.is_diagnostic());
    assert_ne!(line.channel, OutputLine::report("Can not read file: stale".to_string()).channel);
}

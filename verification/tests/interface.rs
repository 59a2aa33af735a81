use wordcount::config::ArgError;
use wordcount::config::Config;
use wordcount::count::count_bytes_blazing_speed;
use wordcount::counts::WcCounts;
use wordcount::format::format_output;
use wordcount::report::render_results;
use wordcount::report::IoError;

fn args(list: &[&str]) -> Vec<String> {
    list.iter().map(|s| s.to_string()).collect()
}

#[test]
fn test_no_flags_shows_everything() {
    let config = Config::from_args(&args(&["a.txt", "b.txt"])).unwrap();
    assert!(config.show_lines);
    assert!(config.show_words);
    assert!(config.show_chars);
    assert_eq!(config.files, vec!["a.txt".to_string(), "b.txt".to_string()]);
}

#[test]
fn test_lines_flag_alone() {
    let config = Config::from_args(&args(&["-l", "a.txt"])).unwrap();
    assert!(config.show_lines);
    assert!(!config.show_words);
    assert!(!config.show_chars);
    assert_eq!(config.files, vec!["a.txt".to_string()]);
}

#[test]
fn test_combined_and_repeated_flags() {
    let config = Config::from_args(&args(&["-lw", "a.txt", "-c"])).unwrap();
    assert!(config.show_lines);
    assert!(config.show_words);
    assert!(config.show_chars);
    assert_eq!(config.files, vec!["a.txt".to_string()]);
}

#[test]
fn test_unknown_flag_is_refused() {
    let err = Config::from_args(&args(&["-lx", "a.txt"])).unwrap_err();
    assert_eq!(err, ArgError::UnknownFlag('x'));
}

#[test]
fn test_first_unknown_flag_is_reported() {
    let err = Config::from_args(&args(&["a.txt", "-wq", "-z"])).unwrap_err();
    assert_eq!(err, ArgError::UnknownFlag('q'));
}

#[test]
fn test_lone_dash_is_a_file() {
    let config = Config::from_args(&args(&["-"])).unwrap();
    assert!(config.show_lines && config.show_words && config.show_chars);
    assert_eq!(config.files, vec!["-".to_string()]);
}

#[test]
fn test_format_all_fields() {
    let counts = count_bytes_blazing_speed(b"Hello world\nThis is a test\n");
    let config = Config::from_args(&Vec::new()).unwrap();
    let line = format_output(&counts, &config, None);
    assert_eq!(line, "       2        6       27");
}

#[test]
fn test_format_with_name() {
    let counts = WcCounts { lines: 3, words: 12, chars: 100 };
    let config = Config::from_args(&Vec::new()).unwrap();
    let line = format_output(&counts, &config, Some("notes.txt"));
    assert_eq!(line, "       3       12      100 notes.txt");
}

#[test]
fn test_format_lines_only_matches_full_count() {
    let text = b"Hello world\nThis is a test\n";
    let counts = count_bytes_blazing_speed(text);
    let config = Config::from_args(&args(&["-l"])).unwrap();
    let line = format_output(&counts, &config, None);
    assert_eq!(line, format!("{:8}", counts.lines));
    assert_eq!(line, "       2");
}

#[test]
fn test_format_wide_value_keeps_all_digits() {
    let counts = WcCounts { lines: 123456789, words: 0, chars: 0 };
    let config = Config::from_args(&args(&["-l"])).unwrap();
    let line = format_output(&counts, &config, None);
    assert_eq!(line, "123456789");
}

#[test]
fn test_render_keeps_input_order_up_to_failure() {
    let config = Config::from_args(&args(&["a.txt", "b.txt", "c.txt"])).unwrap();
    let results = vec![
        Ok(WcCounts { lines: 1, words: 2, chars: 3 }),
        Err(IoError::NotFound),
        Ok(WcCounts { lines: 4, words: 5, chars: 6 }),
    ];
    let (lines, failed) = render_results(&config, &results);
    assert_eq!(failed, Some(1));
    assert_eq!(lines.len(), 1);
    assert_eq!(lines[0], "       1        2        3 a.txt");
}

#[test]
fn test_render_all_ok() {
    let config = Config::from_args(&args(&["a.txt", "b.txt"])).unwrap();
    let results = vec![
        Ok(WcCounts { lines: 1, words: 2, chars: 3 }),
        Ok(WcCounts { lines: 4, words: 5, chars: 6 }),
    ];
    let (lines, failed) = render_results(&config, &results);
    assert_eq!(failed, None);
    assert_eq!(
        lines,
        vec![
            "       1        2        3 a.txt".to_string(),
            "       4        5        6 b.txt".to_string(),
        ]
    );
}

#[test]
fn test_render_reports_permission_errors_too() {
    let config = Config::from_args(&args(&["a.txt"])).unwrap();
    let results = vec![Err(IoError::PermissionDenied)];
    let (lines, failed) = render_results(&config, &results);
    assert_eq!(failed, Some(0));
    assert!(lines.is_empty());
    assert!(matches!(results[0], Err(IoError::PermissionDenied)));
}

#[test]
fn test_other_error_keeps_its_cause() {
    let err = IoError::Other("device busy".to_string());
    assert!(matches!(err, IoError::Other(ref cause) if cause == "device busy"));
}

use arg_flags::{ArgParse, ParseError, Status};

fn args(items: &[&str]) -> Vec<String> {
    items.iter().map(|s| s.to_string()).collect()
}

fn parsed(items: &[&str]) -> ArgParse {
    match ArgParse::new_raw(args(items)) {
        Ok(p) => p,
        Err(e) => panic!("rejected {}", e.token()),
    }
}

fn failure(r: Result<ArgParse, ParseError>) -> ParseError {
    match r {
        Ok(_) => panic!("accepted"),
        Err(e) => e,
    }
}

#[test]
fn last_write_wins() {
    let mut p = parsed(&["-a", "1", "-a", "2"]);
    assert!(p.is_present("a"));
    assert_eq!(p.get_flag_item("a"), Some("2".to_string()));
    assert!(p.get_strays().is_empty());
}

#[test]
fn trailing_flag_has_no_value() {
    let mut p = parsed(&["-a"]);
    assert!(matches!(p.get_status("a"), Status::PresentButNone));
    assert!(p.is_present("a"));
    assert_eq!(p.get_flag_item("a"), None);
    assert!(!p.is_present("a"));
}

#[test]
fn new_skips_the_first_token() {
    let mut p = ArgParse::new(args(&["prog", "x", "-f", "1"])).unwrap();
    assert_eq!(p.get_strays(), args(&["x"]));
    assert_eq!(p.map.len(), 1);
    assert_eq!(p.get_flag_item("f"), Some("1".to_string()));
}

#[test]
fn new_raw_skips_nothing() {
    let mut p = ArgParse::new_raw(args(&["prog", "x", "-f", "1"])).unwrap();
    assert_eq!(p.get_strays(), args(&["prog", "x"]));
    assert_eq!(p.map.len(), 1);
    assert_eq!(p.get_flag_item("f"), Some("1".to_string()));
}

#[test]
fn new_customized_skips_the_given_count() {
    let mut p = ArgParse::new_customized(args(&["a", "b", "c", "-f", "1", "d"]), 4, 4, 2).unwrap();
    assert_eq!(p.get_strays(), args(&["c", "d"]));
    assert_eq!(p.get_flag_item("f"), Some("1".to_string()));
}

#[test]
fn capacity_hints_change_nothing() {
    let input = ["p", "x", "-f", "1", "y", "-g"];
    let mut a = ArgParse::new_customized(args(&input), 0, 0, 1).unwrap();
    let mut b = ArgParse::new_customized(args(&input), 100, 7, 1).unwrap();
    let mut c = ArgParse::new(args(&input)).unwrap();
    assert_eq!(a.get_strays(), args(&["x", "y"]));
    assert_eq!(b.get_strays(), args(&["x", "y"]));
    assert_eq!(c.get_strays(), args(&["x", "y"]));
    assert_eq!(a.get_flag_item("f"), Some("1".to_string()));
    assert_eq!(b.get_flag_item("f"), Some("1".to_string()));
    assert_eq!(c.get_flag_item("f"), Some("1".to_string()));
    assert!(matches!(a.get_status("g"), Status::PresentButNone));
    assert!(matches!(b.get_status("g"), Status::PresentButNone));
}

#[test]
fn skipping_more_than_there_is_leaves_nothing() {
    let mut p = ArgParse::new_customized(args(&["-a", "1"]), 0, 0, 5).unwrap();
    assert!(!p.is_present("a"));
    assert!(p.get_strays().is_empty());
    let mut q = ArgParse::new(Vec::new()).unwrap();
    assert!(q.get_strays().is_empty());
    assert_eq!(q.map.len(), 0);
}

#[test]
fn skipped_tokens_are_not_checked() {
    let mut p = ArgParse::new(args(&["-", "x"])).unwrap();
    assert_eq!(p.get_strays(), args(&["x"]));
    assert_eq!(p.map.len(), 0);
}

#[test]
fn reading_a_flag_consumes_it() {
    let mut p = parsed(&["-f", "v"]);
    assert_eq!(p.get_flag_item("f"), Some("v".to_string()));
    assert_eq!(p.get_flag_item("f"), None);
    assert!(!p.is_present("f"));
    assert!(matches!(p.get_status("f"), Status::NotPresent));
}

#[test]
fn reading_the_strays_drains_them() {
    let mut p = parsed(&["a", "b"]);
    assert_eq!(p.get_strays(), args(&["a", "b"]));
    assert_eq!(p.get_strays(), Vec::<String>::new());
}

#[test]
fn absent_flag_is_left_alone() {
    let mut p = parsed(&["-f", "v", "s"]);
    assert_eq!(p.get_flag_item("g"), None);
    assert!(p.is_present("f"));
    assert_eq!(p.get_strays(), args(&["s"]));
    assert_eq!(p.get_flag_item("f"), Some("v".to_string()));
}

#[test]
fn inline_form_binds_name_to_value() {
    let mut p = parsed(&["-name=value"]);
    assert_eq!(p.map.len(), 1);
    assert!(matches!(p.get_status("name"), Status::Present));
    assert_eq!(p.get_flag_item("name"), Some("value".to_string()));
    assert!(p.get_strays().is_empty());
}

#[test]
fn inline_form_splits_at_the_first_separator() {
    let mut p = parsed(&["-a=b=c"]);
    assert!(p.is_present("a"));
    assert_eq!(p.get_flag_item("a"), Some("b=c".to_string()));
}

#[test]
fn inline_form_with_empty_name() {
    let mut p = parsed(&["-=x"]);
    assert!(p.is_present(""));
    assert_eq!(p.get_flag_item(""), Some("x".to_string()));
}

#[test]
fn inline_flag_never_waits_for_a_value() {
    let mut p = parsed(&["-a", "-b=1", "x", "-c", "y"]);
    assert!(matches!(p.get_status("a"), Status::PresentButNone));
    assert_eq!(p.get_flag_item("b"), Some("1".to_string()));
    assert_eq!(p.get_flag_item("c"), Some("y".to_string()));
    assert_eq!(p.get_strays(), args(&["x"]));
}

#[test]
fn inline_flag_overwrites_and_is_overwritten() {
    let mut p = parsed(&["-a", "1", "-a=2"]);
    assert_eq!(p.get_flag_item("a"), Some("2".to_string()));
    let mut q = parsed(&["-a=2", "-a"]);
    assert!(matches!(q.get_status("a"), Status::PresentButNone));
    assert_eq!(q.get_flag_item("a"), None);
}

#[test]
fn separator_outside_a_flag_is_plain_text() {
    let mut p = parsed(&["a=b", "-f", "c=", "="]);
    assert_eq!(p.get_flag_item("f"), Some("c=".to_string()));
    assert_eq!(p.get_strays(), args(&["a=b", "="]));
}

#[test]
fn double_marker_keeps_the_second() {
    let mut p = parsed(&["--long", "v"]);
    assert!(p.is_present("-long"));
    assert!(!p.is_present("long"));
    assert_eq!(p.get_flag_item("-long"), Some("v".to_string()));
}

#[test]
fn tokens_beyond_ascii() {
    let mut p = parsed(&["-clé=été", "-π", "ß", "日本"]);
    assert_eq!(p.get_flag_item("clé"), Some("été".to_string()));
    assert_eq!(p.get_flag_item("π"), Some("ß".to_string()));
    assert_eq!(p.get_strays(), args(&["日本"]));
}

#[test]
fn bare_marker_is_rejected() {
    let e = failure(ArgParse::new_raw(args(&["-"])));
    assert_eq!(e.token(), "-");
    assert_eq!(e.message(), "Could not parse arg -");
}

#[test]
fn trailing_separator_is_rejected() {
    let e = failure(ArgParse::new_raw(args(&["-name="])));
    assert_eq!(e.token(), "-name=");
    assert_eq!(e.message(), "Could not parse arg -name=");
    let e = failure(ArgParse::new_raw(args(&["-="])));
    assert_eq!(e.token(), "-=");
    let e = failure(ArgParse::new_raw(args(&["-a=b="])));
    assert_eq!(e.token(), "-a=b=");
}

#[test]
fn first_malformed_token_is_reported() {
    let e = failure(ArgParse::new_raw(args(&["x", "-f", "1", "-a=", "-"])));
    assert_eq!(e.token(), "-a=");
    let e = failure(ArgParse::new(args(&["prog", "-f", "-", "-a="])));
    assert_eq!(e.token(), "-");
    let e = failure(ArgParse::new_customized(args(&["-", "-", "-b="]), 1, 1, 2));
    assert_eq!(e.token(), "-b=");
}

#[test]
fn presence_check_is_repeatable() {
    let mut p = parsed(&["-a", "1", "s", "-b"]);
    assert!(p.is_present("a"));
    assert!(p.is_present("a"));
    assert!(p.is_present("b"));
    assert!(!p.is_present("c"));
    assert!(!p.is_present("c"));
    assert_eq!(p.get_strays(), args(&["s"]));
    assert!(p.is_present("a"));
    assert_eq!(p.get_flag_item("b"), None);
    assert!(p.is_present("a"));
    assert!(!p.is_present("b"));
}

#[test]
fn status_tells_the_three_cases() {
    let p = parsed(&["-a", "1", "-b"]);
    assert!(matches!(p.get_status("a"), Status::Present));
    assert!(matches!(p.get_status("b"), Status::PresentButNone));
    assert!(matches!(p.get_status("c"), Status::NotPresent));
    assert!(matches!(p.get_status("a"), Status::Present));
}

#[test]
fn every_token_lands_once() {
    let mut p = parsed(&["s0", "-a", "va", "s1", "s2", "-b", "-c=vc", "s3", "-d"]);
    assert_eq!(p.map.len(), 4);
    assert_eq!(p.get_strays(), args(&["s0", "s1", "s2", "s3"]));
    assert_eq!(p.get_flag_item("a"), Some("va".to_string()));
    assert!(matches!(p.get_status("b"), Status::PresentButNone));
    assert_eq!(p.get_flag_item("c"), Some("vc".to_string()));
    assert!(matches!(p.get_status("d"), Status::PresentButNone));
}

#[test]
fn strays_keep_their_order() {
    let mut p = parsed(&["z", "a", "-f", "m", "b", "a", "y"]);
    assert_eq!(p.get_strays(), args(&["z", "a", "b", "a", "y"]));
}

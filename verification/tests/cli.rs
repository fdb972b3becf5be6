use daylight::cli::{parse_interval, ColorArg, ColorWhen};

#[test]
fn interval_accepts_its_range() {
    assert_eq!(parse_interval("10"), Ok(10));
    assert_eq!(parse_interval("100"), Ok(100));
    assert_eq!(parse_interval("1000"), Ok(1000));
    assert_eq!(parse_interval("+250"), Ok(250));
    assert_eq!(parse_interval("0042"), Ok(42));
}

#[test]
fn interval_out_of_range_is_refused() {
    let msg = "must be within [10, 1000] milliseconds".to_string();
    assert_eq!(parse_interval("0"), Err(msg.clone()));
    assert_eq!(parse_interval("9"), Err(msg.clone()));
    assert_eq!(parse_interval("1001"), Err(msg.clone()));
    assert_eq!(parse_interval("18446744073709551615"), Err(msg));
}

#[test]
fn interval_that_is_not_a_number_is_refused() {
    for s in ["", "+", "-5", "1.5", "ten", " 100", "100 ", "18446744073709551616", "1e3", "٣"] {
        assert_eq!(parse_interval(s), Err(format!("invalid number: {s}")), "{s:?}");
    }
}

#[test]
fn color_arguments_map_to_choices() {
    assert_eq!(ColorArg::Auto.when(), ColorWhen::Auto);
    assert_eq!(ColorArg::Always.when(), ColorWhen::Always);
    assert_eq!(ColorArg::Never.when(), ColorWhen::Never);
}

#[test]
fn always_and_never_ignore_the_environment() {
    for tty in [true, false] {
        for term in [None, Some("dumb"), Some("xterm")] {
            for nc in [None, Some(""), Some("1")] {
                assert!(ColorWhen::Always.resolve(nc, term, tty));
                assert!(!ColorWhen::Never.resolve(nc, term, tty));
            }
        }
    }
}

#[test]
fn no_color_and_dumb_term_disable_auto_color() {
    let auto = ColorWhen::Auto;
    assert!(auto.resolve(None, Some("xterm-256color"), true));
    assert!(!auto.resolve(None, Some("xterm-256color"), false));
    // NO_COLOR set to a non-empty value disables color.
    assert!(!auto.resolve(Some("1"), Some("xterm-256color"), true));
    // An empty NO_COLOR does not.
    assert!(auto.resolve(Some(""), Some("xterm-256color"), true));
    // TERM=dumb or a missing TERM disables color.
    assert!(!auto.resolve(None, Some("dumb"), true));
    assert!(!auto.resolve(None, None, true));
    // Only exactly "dumb" counts.
    assert!(auto.resolve(None, Some("dumber"), true));
    assert!(auto.resolve(None, Some("DUMB"), true));
    assert!(auto.resolve(None, Some(""), true));
}

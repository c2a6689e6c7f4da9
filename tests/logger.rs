use market_maker::logger::{level_named, try_parse_filter};
use market_maker::logger::{parse_filter, parse_level, LevelFilter};

#[test]
fn test_logger_parse_filter() {
    assert_eq!((LevelFilter::Off, vec![]), parse_filter(""));
    assert_eq!((LevelFilter::Info, vec![]), parse_filter("info"));
    assert_eq!((LevelFilter::Off, vec![("foo", LevelFilter::Warn)]), parse_filter("foo=warn"));
    assert_eq!((LevelFilter::Info, vec![("foo", LevelFilter::Warn)]), parse_filter("info,foo=warn"));
    assert_eq!(
        (LevelFilter::Info, vec![("foo", LevelFilter::Warn), ("bar", LevelFilter::Error)]),
        parse_filter("info,foo=warn,bar=error")
    );
}

#[test]
fn test_logger_parse_level() {
    assert_eq!(LevelFilter::Trace, parse_level("trace"));
    assert_eq!(LevelFilter::Debug, parse_level("debug"));
    assert_eq!(LevelFilter::Info, parse_level("info"));
    assert_eq!(LevelFilter::Warn, parse_level("warn"));
    assert_eq!(LevelFilter::Error, parse_level("error"));
}

#[test]
fn malformed_filters_are_refused() {
    assert_eq!(try_parse_filter("foo=warn,info"), None);
    assert_eq!(try_parse_filter("foo=warn=error"), None);
    assert_eq!(try_parse_filter("loud"), None);
    assert_eq!(try_parse_filter("info,,foo=warn"), None);
    assert_eq!(
        try_parse_filter("debug,a=trace"),
        Some((LevelFilter::Debug, vec![("a", LevelFilter::Trace)]))
    );
    assert_eq!(level_named("warn"), Some(LevelFilter::Warn));
    assert_eq!(level_named("WARN"), None);
}

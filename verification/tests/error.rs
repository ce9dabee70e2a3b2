use zudb_js::error::{aborted, build, name_for, severity, stacked, usage, Position, Raised, Severity, Sort, Status};
use zudb_js::js::Kind;
use zudb_js::value::Made;

fn raised(sort: Sort, class: Option<&str>) -> Raised {
    Raised {
        message: "m".to_string(),
        retryable: true,
        sort,
        status: class.map(|class| Status {
            code: format!("{class}001"),
            class: class.to_string(),
            condition: "c".to_string(),
            severity: Severity::Exception,
            doc_url: "u".to_string(),
        }),
        position: None,
        excerpt: None,
    }
}

fn keys(fields: &[(String, Made)]) -> Vec<&str> {
    fields.iter().map(|f| f.0.as_str()).collect()
}

#[test]
fn a_class_is_a_name() {
    for (class, name) in [
        ("08", "ZuConnectionError"),
        ("22", "ZuDataError"),
        ("25", "ZuTransactionError"),
        ("2D", "ZuTransactionError"),
        ("40", "ZuTransactionError"),
        ("42", "ZuSyntaxError"),
        ("00", "ZuError"),
        ("2d", "ZuError"),
    ] {
        assert_eq!(name_for(&raised(Sort::Io, Some(class))), name, "{class}");
    }
}

#[test]
fn a_failure_without_a_code_is_named_by_its_sort() {
    for (sort, name) in [
        (Sort::Interrupted, "ZuInterrupted"),
        (Sort::InvalidArgument, "ZuUsageError"),
        (Sort::Conflict, "ZuTransactionError"),
        (Sort::Io, "ZuConnectionError"),
        (Sort::Corrupt, "ZuConnectionError"),
        (Sort::Other, "ZuInternalError"),
    ] {
        assert_eq!(name_for(&raised(sort, None)), name);
    }
}

#[test]
fn every_severity_has_a_name() {
    assert_eq!(severity(Severity::Success), "success");
    assert_eq!(severity(Severity::NoData), "noData");
    assert_eq!(severity(Severity::Warning), "warning");
    assert_eq!(severity(Severity::Informational), "informational");
    assert_eq!(severity(Severity::Exception), "exception");
}

#[test]
fn an_exception_carries_what_there_is() {
    let mut err = raised(Sort::Other, Some("42"));
    err.position = Some(Position { line: 1, column: 7, offset: 6 });
    err.excerpt = Some("RETRN".to_string());
    let made = build(&err);
    assert_eq!((made.name, made.message.as_str()), ("ZuSyntaxError", "m"));
    assert_eq!(
        keys(&made.fields),
        ["retryable", "code", "condition", "severity", "docUrl", "line", "column", "offset", "excerpt"]
    );
    assert!(matches!(made.fields[0].1, Made::Boolean(true)));
    assert!(matches!(&made.fields[1].1, Made::Text(t) if t == "42001"));
    assert!(matches!(made.fields[6].1, Made::Count(7)));
    assert_eq!(keys(&build(&raised(Sort::Io, None)).fields), ["retryable"]);
}

#[test]
fn a_mistake_and_an_abort_have_no_code() {
    let made = usage("no");
    assert_eq!((made.name, made.message.as_str(), keys(&made.fields)), ("ZuUsageError", "no", vec!["retryable"]));
    assert!(matches!(made.fields[0].1, Made::Boolean(false)));
    assert_eq!(aborted("stopped").name, "AbortError");
}

#[test]
fn a_stack_is_written_where_there_is_none() {
    assert_eq!(stacked(Kind::Text, "ZuError", "m"), None);
    assert_eq!(stacked(Kind::Undefined, "ZuError", "m"), Some("ZuError: m".to_string()));
}

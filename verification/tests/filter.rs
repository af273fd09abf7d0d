//! Display filters.
use tapgres::addr::parse_socket;
use tapgres::filter::{DisplayFilter, DisplayMessage, MessageDirection};

fn message() -> DisplayMessage {
    DisplayMessage {
        timestamp: "2026-07-17T12:34:56.789+01:00".into(),
        rendered: "line".into(),
        client: parse_socket("127.0.0.1:40005").unwrap(),
        direction: MessageDirection::FrontendToBackend,
        kind: "Query".into(),
        text: "SELECT * FROM orders WHERE id = 42".into(),
    }
}

#[test]
fn ordered_port_comparisons() {
    // message() has client.port 40005.
    for (expr, expected) in [
        ("client.port > 40000", true),
        ("client.port < 40000", false),
        ("client.port >= 40005", true),
        ("client.port <= 40005", true),
        ("client.port < 40005", false),
        ("client.port >= 40000 and client.port < 50000", true),
    ] {
        assert_eq!(
            DisplayFilter::parse(expr).unwrap().matches(&message()),
            expected,
            "{expr}"
        );
    }
    // Ordered comparison is rejected on non-numeric fields.
    assert!(DisplayFilter::parse("message.type > \"Query\"").is_err());
    assert!(DisplayFilter::parse("client.ip < 127.0.0.1").is_err());
}

#[test]
fn quoted_port_is_accepted_symmetrically_with_ip() {
    // Both quoted and bare forms parse and match, like client.ip.
    assert!(
        DisplayFilter::parse("client.port == \"40005\"")
            .unwrap()
            .matches(&message())
    );
    assert!(
        DisplayFilter::parse("client.port == 40005")
            .unwrap()
            .matches(&message())
    );
}

#[test]
fn quote_terminates_a_bare_word() {
    // `contains"orders"` (no space) must still recognise the operator.
    let filter = DisplayFilter::parse("message.text contains\"orders\"").unwrap();
    assert!(filter.matches(&message()));
    // And a comparison operator glued to the field lexes correctly.
    assert!(
        DisplayFilter::parse("client.port<50000")
            .unwrap()
            .matches(&message())
    );
}

#[test]
fn combines_typed_conditions_with_boolean_operators() {
    let filter = DisplayFilter::parse(
        "client.ip == 127.0.0.1 and client.port == 40005 && \
         message.type in {\"Query\", \"DataRow\"} and \
         message.text contains \"orders\" and message.direction == \"f2b\"",
    )
    .unwrap();
    assert!(filter.matches(&message()));

    let mut other = message();
    other.client = parse_socket("127.0.0.1:40006").unwrap();
    assert!(!filter.matches(&other));
}

#[test]
fn applies_not_and_and_or_precedence() {
    let filter = DisplayFilter::parse(
        "message.type == \"DataRow\" or \
         message.type == \"Query\" and not message.text contains \"users\"",
    )
    .unwrap();
    assert!(filter.matches(&message()));

    let grouped = DisplayFilter::parse(
        "(message.type == \"DataRow\" or message.type == \"Query\") and \
         not client.ip == 127.0.0.1",
    )
    .unwrap();
    assert!(!grouped.matches(&message()));
}

#[test]
fn supports_symbolic_boolean_operators_and_not_equal() {
    let filter = DisplayFilter::parse(
        "message.type != \"DataRow\" && \
         !(client.port == 40006 || client.ip == ::1)",
    )
    .unwrap();
    assert!(filter.matches(&message()));
}

#[test]
fn matches_regexes_case_insensitively_and_accepts_raw_strings() {
    let filter = DisplayFilter::parse(
        "message.type matches \"^qu.*$\" and message.text matches r\"orders\\s+WHERE\"",
    )
    .unwrap();
    assert!(filter.matches(&message()));
}

#[test]
fn equality_and_contains_are_case_sensitive() {
    assert!(
        !DisplayFilter::parse("message.type == \"query\"")
            .unwrap()
            .matches(&message())
    );
    assert!(
        !DisplayFilter::parse("message.text contains \"ORDERS\"")
            .unwrap()
            .matches(&message())
    );
}

#[test]
fn supports_ip_port_and_direction_sets() {
    assert!(
        DisplayFilter::parse("client.ip in {127.0.0.1, ::1}")
            .unwrap()
            .matches(&message())
    );
    assert!(
        DisplayFilter::parse("client.port in {40005, 40006}")
            .unwrap()
            .matches(&message())
    );
    assert!(
        DisplayFilter::parse("message.direction in {\"b2f\", \"f2b\"}")
            .unwrap()
            .matches(&message())
    );
}

#[test]
fn rejects_unknown_fields_invalid_types_and_invalid_regexes() {
    let cases = [
        "client == 127.0.0.1",
        "client.ip contains \"127\"",
        "client.port == \"not-a-number\"",
        "message.type == Query",
        "message.direction == \"sideways\"",
        "message.type in {}",
        "message.type matches \"[\"",
        "message.type == \"unterminated",
        "type=Query",
    ];
    for expression in cases {
        assert!(
            DisplayFilter::parse(expression).is_err(),
            "expected '{expression}' to fail"
        );
    }
}

#[test]
fn parse_errors_include_the_byte_position() {
    let error = DisplayFilter::parse("message.type == Query").unwrap_err();
    assert!(error.to_text().contains("at byte 16"));
}

#[test]
fn empty_expression_matches_every_message() {
    let filter = DisplayFilter::parse("   ").unwrap();
    assert!(filter.is_empty());
    assert!(filter.matches(&message()));
}

// --- further cases ---------------------------------------------------------------------

fn error_of(expression: &str) -> String {
    match DisplayFilter::parse(expression) {
        Ok(_) => panic!("expected '{expression}' to fail"),
        Err(error) => error.to_text(),
    }
}

#[test]
fn expression_is_kept_without_white_space_round_it() {
    let filter = DisplayFilter::parse("  client.port == 1 ").unwrap();
    assert_eq!(filter.expression(), "client.port == 1");
    assert!(!filter.is_empty());
    let again = DisplayFilter::parse(filter.expression()).unwrap();
    assert_eq!(again.expression(), "client.port == 1");
}

#[test]
fn and_binds_tighter_than_or() {
    // true or (false and false)
    let filter =
        DisplayFilter::parse("client.port == 40005 or client.port == 1 and client.port == 2")
            .unwrap();
    assert!(filter.matches(&message()));
    // (true or false) and false
    let grouped =
        DisplayFilter::parse("(client.port == 40005 or client.port == 1) and client.port == 2")
            .unwrap();
    assert!(!grouped.matches(&message()));
}

#[test]
fn keywords_are_read_whatever_their_case() {
    let filter =
        DisplayFilter::parse("NOT client.port == 1 AND message.type IN {\"Query\"}").unwrap();
    assert!(filter.matches(&message()));
}

#[test]
fn errors_say_what_is_wrong_and_where() {
    assert!(error_of("client.port == 70000").ends_with("at byte 15"), "{}", error_of("client.port == 70000"));
    assert!(error_of("message.type == \"Query\" extra").contains("at byte 24"));
    assert!(error_of("message.text matches \"(\"").contains("at byte 21"));
    assert!(error_of("(message.type == \"Query\"").contains("at byte 24"));
    assert!(error_of("message.type ~ \"Query\"").contains("at byte 13"));
}

#[test]
fn positions_count_bytes_not_characters() {
    assert!(error_of("message.text == \"é\" x").contains("at byte 21"));
}

#[test]
fn ip_fields_compare_by_value_not_by_text() {
    let mut m = message();
    m.client = parse_socket("[::1]:40005").unwrap();
    let filter = DisplayFilter::parse("client.ip == 0:0:0:0:0:0:0:1").unwrap();
    assert!(filter.matches(&m));
    assert!(!filter.matches(&message()));
}

#[test]
fn directions_are_compared_case_sensitively() {
    let filter = DisplayFilter::parse("message.direction == \"F→B\"").unwrap();
    assert!(filter.matches(&message()));
    assert_eq!(
        error_of("message.direction == \"F2B\""),
        "invalid direction 'F2B' (expected f2b or b2f) at byte 21"
    );
}

/// Predicates of which the message passes the first alone, the second alone, ...
fn predicates() -> [(&'static str, bool); 4] {
    [
        ("message.type == \"Query\"", true),
        ("client.port in {1, 2}", false),
        ("message.text contains \"orders\"", true),
        ("message.direction != \"f2b\"", false),
    ]
}

#[test]
fn texts_combine_by_precedence_in_words_and_marks() {
    let passes = |text: &str| DisplayFilter::parse(text).unwrap().matches(&message());
    for (a, x) in predicates() {
        for (b, y) in predicates() {
            for (c, z) in predicates() {
                let want = x || (y && !z);
                assert_eq!(passes(&format!("{a} or {b} and not {c}")), want);
                assert_eq!(passes(&format!("{a} || {b} && !{c}")), want);
                assert_eq!(passes(&format!("({a} or {b}) and {c}")), (x || y) && z);
            }
        }
    }
}

#[test]
fn sets_are_disjunctions_and_unequal_is_the_negation_of_equal() {
    let passes = |text: &str| DisplayFilter::parse(text).unwrap().matches(&message());
    let values = [
        ("client.ip", ["127.0.0.1", "\"10.0.0.1\"", "::1"]),
        ("client.port", ["40005", "\"1\"", "2"]),
        ("message.type", ["\"Query\"", "\"Parse\"", "r\"x\""]),
        ("message.text", ["\"a\"", "\"b\"", "\"c\""]),
        ("message.direction", ["\"f2b\"", "\"b2f\"", "\"f2b\""]),
    ];
    for (field, [u, v, w]) in values {
        let one = |v: &str| passes(&format!("{field} == {v}"));
        let set = format!("{field} in {{{u}, {v}, {w}}}");
        assert_eq!(passes(&set), one(u) || one(v) || one(w), "{set}");
        let pair = format!("{field} in {{{v}, {w}}}");
        assert_eq!(passes(&pair), one(v) || one(w), "{pair}");
        for v in [u, v, w] {
            assert_eq!(passes(&format!("{field} != {v}")), !one(v));
        }
    }
}

#[test]
fn a_cloned_filter_matches_as_the_first_does() {
    let text = "message.text matches \"ORDERS\" and client.port in {40005, 1}";
    let filter = DisplayFilter::parse(text).unwrap();
    let copy = filter.clone();
    assert_eq!(copy.expression(), text);
    assert!(copy.matches(&message()));
    let mut other = message();
    other.text = "SELECT 1".into();
    assert!(!copy.matches(&other) && !filter.matches(&other));
}

use trk::bulk::parse_bulk_line;
use trk::bulk::BulkLine;

#[test]
fn well_formed_line_splits_at_first_equals() {
    match parse_bulk_line("pushups=25.5") {
        BulkLine::Pair { series, value_text } => {
            assert_eq!(series, "pushups");
            assert_eq!(value_text, "25.5");
        },
        other => panic!("expected a pair, got {:?}", other),
    }
}

#[test]
fn run_of_equals_signs_is_consumed() {
    match parse_bulk_line("a==2") {
        BulkLine::Pair { series, value_text } => {
            assert_eq!(series, "a");
            assert_eq!(value_text, "2");
        },
        other => panic!("expected a pair, got {:?}", other),
    }
}

#[test]
fn later_equals_stays_in_the_value_text() {
    match parse_bulk_line("a=b=c") {
        BulkLine::Pair { series, value_text } => {
            assert_eq!(series, "a");
            assert_eq!(value_text, "b=c");
        },
        other => panic!("expected a pair, got {:?}", other),
    }
}

#[test]
fn blank_line_is_empty() {
    assert!(matches!(parse_bulk_line(""), BulkLine::Empty));
}

#[test]
fn line_without_equals_is_malformed() {
    assert!(matches!(parse_bulk_line("no separator here"), BulkLine::Malformed));
}

#[test]
fn empty_series_name_is_kept_verbatim() {
    match parse_bulk_line("=3") {
        BulkLine::Pair { series, value_text } => {
            assert_eq!(series, "");
            assert_eq!(value_text, "3");
        },
        other => panic!("expected a pair, got {:?}", other),
    }
}

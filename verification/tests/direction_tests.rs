use transiter_proxy::direction::Direction;
use transiter_proxy::dispatch::Operation;
use transiter_proxy::dispatch::plan_operation;
use transiter_proxy::dispatch::selection_includes_running;
use transiter_proxy::epoch::parse_epoch;
use transiter_proxy::error::ValidationError;
use transiter_proxy::GraphQLError;

#[test]
fn north_codes_parse_to_north() {
    for s in ["n", "N", "north", "NORTH", "North", "nOrTh"] {
        assert_eq!(Direction::parse(s), Ok(Direction::North), "input {:?}", s);
    }
}

#[test]
fn south_codes_parse_to_south() {
    for s in ["s", "S", "south", "SOUTH", "South", "soUTH"] {
        assert_eq!(Direction::parse(s), Ok(Direction::South), "input {:?}", s);
    }
}

#[test]
fn other_direction_strings_fail_validation() {
    for s in ["", "x", "e", "west", "nort", "norths", "NORTH ", " n", "n o r t h", "0"] {
        assert_eq!(
            Direction::parse(s),
            Err(ValidationError::InvalidDirection),
            "input {:?}",
            s
        );
    }
}

#[test]
fn direction_suffix_letters() {
    assert_eq!(Direction::North.suffix(), 'N');
    assert_eq!(Direction::South.suffix(), 'S');
}

#[test]
fn epoch_parses_plain_digits() {
    assert_eq!(parse_epoch("0"), Some(0));
    assert_eq!(parse_epoch("1699999999"), Some(1_699_999_999));
    assert_eq!(parse_epoch("18446744073709551615"), Some(u64::MAX));
}

#[test]
fn epoch_rejects_empty_nondigit_and_overflow() {
    assert_eq!(parse_epoch(""), None);
    assert_eq!(parse_epoch("12a3"), None);
    assert_eq!(parse_epoch("-5"), None);
    assert_eq!(parse_epoch("3.5"), None);
    assert_eq!(parse_epoch("18446744073709551616"), None);
}

#[test]
fn known_field_names_dispatch() {
    assert_eq!(
        plan_operation("nearbyTrainTimes"),
        Ok(Operation::NearbyTrainTimes)
    );
    assert_eq!(plan_operation("routeStatuses"), Ok(Operation::RouteStatuses));
}

#[test]
fn unknown_field_name_is_reported_with_its_name() {
    let r = plan_operation("somethingElse");
    assert_eq!(
        r,
        Err(GraphQLError::UnknownFieldName(String::from("somethingElse")))
    );
    let e = r.unwrap_err();
    assert_eq!(e.message(), "Unknown fieldName: somethingElse");
}

#[test]
fn selection_detects_running_flag() {
    assert!(selection_includes_running("{ routeId running alerts }"));
    assert!(selection_includes_running("running"));
    assert!(!selection_includes_running("{ routeId alerts }"));
    assert!(!selection_includes_running(""));
    assert!(!selection_includes_running("runnin"));
}

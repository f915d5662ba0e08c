use transiter_proxy::direction::Direction;
use transiter_proxy::error::IntegrityError;
use transiter_proxy::model::Stop;
use transiter_proxy::model::StopTime;
use transiter_proxy::model::TripRef;
use transiter_proxy::nearby::nearby_train_times;
use transiter_proxy::nearby::stop_time_epoch;
use transiter_proxy::nearby::trips_by_route_for_stop;

fn st(trip_id: &str, route: &str, arrival: Option<&str>, departure: Option<&str>) -> StopTime {
    StopTime {
        trip: Some(TripRef { id: String::from(trip_id), route_id: String::from(route) }),
        arrival: arrival.map(String::from),
        departure: departure.map(String::from),
    }
}

fn stop(id: &str, distance: Option<u64>, stop_times: Vec<StopTime>) -> Stop {
    Stop {
        id: String::from(id),
        name: Some(format!("{} name", id)),
        distance,
        stop_times,
    }
}

fn routes(names: &[&str]) -> Vec<String> {
    names.iter().map(|r| String::from(*r)).collect()
}

#[test]
fn arrival_preferred_departure_fallback() {
    assert_eq!(stop_time_epoch(&st("t", "A", Some("100"), Some("200"))), Some(100));
    assert_eq!(stop_time_epoch(&st("t", "A", None, Some("200"))), Some(200));
    assert_eq!(stop_time_epoch(&st("t", "A", Some("bad"), Some("200"))), Some(200));
    assert_eq!(stop_time_epoch(&st("t", "A", None, None)), None);
    assert_eq!(stop_time_epoch(&st("t", "A", Some("bad"), Some("worse"))), None);
}

#[test]
fn grouping_keeps_only_requested_routes() {
    let times = vec![
        st("t1", "A", Some("100"), None),
        st("t2", "B", Some("110"), None),
        st("t3", "A", Some("120"), None),
    ];
    let groups = trips_by_route_for_stop(&times, &routes(&["A"]));
    assert_eq!(groups.len(), 1);
    assert_eq!(groups[0].route, "A");
    let ids: Vec<&str> = groups[0].trips.iter().map(|t| t.trip_id.as_str()).collect();
    assert_eq!(ids, vec!["t1", "t3"]);
    assert_eq!(groups[0].trips[0].arrival, 100);
    assert_eq!(groups[0].trips[1].arrival, 120);
}

#[test]
fn grouping_orders_route_groups_by_route_id() {
    let times = vec![
        st("t1", "C", Some("100"), None),
        st("t2", "A", Some("110"), None),
        st("t3", "B", Some("120"), None),
    ];
    let groups = trips_by_route_for_stop(&times, &routes(&["A", "B", "C"]));
    let names: Vec<&str> = groups.iter().map(|g| g.route.as_str()).collect();
    assert_eq!(names, vec!["A", "B", "C"]);
}

#[test]
fn unusable_records_and_empty_groups_are_dropped() {
    let times = vec![
        st("t1", "A", None, None),
        st("t2", "B", Some("100"), None),
        StopTime { trip: None, arrival: Some(String::from("90")), departure: None },
    ];
    let groups = trips_by_route_for_stop(&times, &routes(&["A", "B"]));
    assert_eq!(groups.len(), 1);
    assert_eq!(groups[0].route, "B");
    assert_eq!(groups[0].trips.len(), 1);
}

#[test]
fn nearby_orders_stops_by_distance() {
    let stops = vec![
        stop("101N", Some(500), vec![st("t1", "A", Some("100"), None)]),
        stop("102N", Some(200), vec![st("t2", "A", Some("110"), None)]),
    ];
    let out = nearby_train_times(&stops, &routes(&["A"]), Direction::North).unwrap();
    let ids: Vec<&str> = out.iter().map(|e| e.stop.stop_id.as_str()).collect();
    assert_eq!(ids, vec!["102N", "101N"]);
    assert_eq!(out[0].stop.distance, 200);
    assert_eq!(out[0].stop.name, "102N name");
}

#[test]
fn nearby_filters_by_direction_suffix() {
    let stops = vec![
        stop("101N", Some(100), vec![st("t1", "A", Some("100"), None)]),
        stop("101S", Some(100), vec![st("t2", "A", Some("100"), None)]),
        stop("101", Some(100), vec![st("t3", "A", Some("100"), None)]),
    ];
    let out = nearby_train_times(&stops, &routes(&["A"]), Direction::South).unwrap();
    assert_eq!(out.len(), 1);
    assert_eq!(out[0].stop.stop_id, "101S");
}

#[test]
fn nearby_drops_stops_without_matching_trips() {
    let stops = vec![
        stop("101N", Some(100), vec![st("t1", "B", Some("100"), None)]),
        stop("102N", Some(200), vec![st("t2", "A", Some("100"), None)]),
    ];
    let out = nearby_train_times(&stops, &routes(&["A"]), Direction::North).unwrap();
    assert_eq!(out.len(), 1);
    assert_eq!(out[0].stop.stop_id, "102N");
    assert_eq!(out[0].route_trips.len(), 1);
    assert_eq!(out[0].route_trips[0].route, "A");
}

#[test]
fn nearby_fails_on_missing_coordinate() {
    let stops = vec![stop("101N", None, vec![st("t1", "A", Some("100"), None)])];
    let r = nearby_train_times(&stops, &routes(&["A"]), Direction::North);
    assert_eq!(r, Err(IntegrityError::MissingCoordinate(String::from("101N"))));
}

#[test]
fn nearby_fails_on_missing_name() {
    let stops = vec![Stop {
        id: String::from("101N"),
        name: None,
        distance: Some(100),
        stop_times: vec![],
    }];
    let r = nearby_train_times(&stops, &routes(&["A"]), Direction::North);
    assert_eq!(r, Err(IntegrityError::MissingStopName(String::from("101N"))));
}

#[test]
fn nearby_ignores_incomplete_stop_of_other_direction() {
    let stops = vec![
        stop("101S", None, vec![]),
        stop("102N", Some(50), vec![st("t1", "A", Some("100"), None)]),
    ];
    let out = nearby_train_times(&stops, &routes(&["A"]), Direction::North).unwrap();
    assert_eq!(out.len(), 1);
    assert_eq!(out[0].stop.stop_id, "102N");
}

#[test]
fn nearby_keeps_tied_distances_in_upstream_order() {
    let stops = vec![
        stop("201N", Some(300), vec![st("t1", "A", Some("100"), None)]),
        stop("202N", Some(300), vec![st("t2", "A", Some("110"), None)]),
    ];
    let out = nearby_train_times(&stops, &routes(&["A"]), Direction::North).unwrap();
    let ids: Vec<&str> = out.iter().map(|e| e.stop.stop_id.as_str()).collect();
    assert_eq!(ids, vec!["201N", "202N"]);
}

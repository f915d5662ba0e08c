use transiter_proxy::error::IntegrityError;
use transiter_proxy::model::Alert;
use transiter_proxy::model::AlertMessage;
use transiter_proxy::model::AlertPreview;
use transiter_proxy::model::Route;
use transiter_proxy::status::build_route_statuses;
use transiter_proxy::status::filter_routes;

fn route(id: &str, alerts: Vec<AlertPreview>) -> Route {
    Route { id: String::from(id), alerts }
}

fn preview(id: &str, cause: &str, effect: &str) -> AlertPreview {
    AlertPreview { id: String::from(id), cause: String::from(cause), effect: String::from(effect) }
}

fn msg(text: &str, language: &str) -> AlertMessage {
    AlertMessage { text: String::from(text), language: String::from(language) }
}

fn alert(id: &str, header: Vec<AlertMessage>, description: Vec<AlertMessage>, url: Vec<AlertMessage>) -> Alert {
    Alert { id: String::from(id), header, description, url }
}

#[test]
fn filter_keeps_all_routes_without_filter() {
    let rs = vec![route("A", vec![]), route("B", vec![])];
    let kept = filter_routes(rs, None);
    let names: Vec<&str> = kept.iter().map(|r| r.id.as_str()).collect();
    assert_eq!(names, vec!["A", "B"]);
}

#[test]
fn filter_keeps_requested_routes_in_order() {
    let rs = vec![route("A", vec![]), route("B", vec![]), route("C", vec![])];
    let wanted = vec![String::from("C"), String::from("A")];
    let kept = filter_routes(rs, Some(&wanted));
    let names: Vec<&str> = kept.iter().map(|r| r.id.as_str()).collect();
    assert_eq!(names, vec!["A", "C"]);
}

#[test]
fn statuses_without_counts_are_not_running_and_keep_order() {
    let rs = vec![route("B", vec![]), route("A", vec![])];
    let out = build_route_statuses(&rs, &vec![], None).unwrap();
    assert_eq!(out.len(), 2);
    assert_eq!(out[0].route_id, "B");
    assert_eq!(out[1].route_id, "A");
    assert!(!out[0].running);
    assert!(!out[1].running);
}

#[test]
fn statuses_running_comes_from_trip_counts() {
    let rs = vec![route("A", vec![]), route("B", vec![])];
    let counts = vec![2usize, 0usize];
    let out = build_route_statuses(&rs, &vec![], Some(&counts)).unwrap();
    assert!(out[0].running);
    assert!(!out[1].running);
}

#[test]
fn alert_preview_joins_full_alert_record() {
    let rs = vec![route("A", vec![preview("A1", "MAINTENANCE", "DELAYS")])];
    let alerts = vec![alert("A1", vec![msg("H", "en")], vec![], vec![])];
    let out = build_route_statuses(&rs, &alerts, None).unwrap();
    assert_eq!(out.len(), 1);
    assert_eq!(out[0].alerts.len(), 1);
    let a = &out[0].alerts[0];
    assert_eq!(a.id, "A1");
    assert_eq!(a.cause, "MAINTENANCE");
    assert_eq!(a.effect, "DELAYS");
    assert_eq!(a.headers.len(), 1);
    assert_eq!(a.headers[0].text, "H");
    assert_eq!(a.headers[0].language, "en");
    assert_eq!(a.descriptions.len(), 0);
    assert_eq!(a.urls.len(), 0);
}

#[test]
fn missing_alert_id_fails_whole_request() {
    let rs = vec![
        route("A", vec![preview("A1", "C", "E")]),
        route("B", vec![preview("X99", "C", "E")]),
    ];
    let alerts = vec![alert("A1", vec![], vec![], vec![])];
    let r = build_route_statuses(&rs, &alerts, None);
    assert_eq!(r, Err(IntegrityError::UnknownAlertId(String::from("X99"))));
}

#[test]
fn later_duplicate_alert_record_wins() {
    let rs = vec![route("A", vec![preview("A1", "C", "E")])];
    let alerts = vec![
        alert("A1", vec![msg("old", "en")], vec![], vec![]),
        alert("A1", vec![msg("new", "en")], vec![], vec![]),
    ];
    let out = build_route_statuses(&rs, &alerts, None).unwrap();
    assert_eq!(out[0].alerts[0].headers[0].text, "new");
}

//! Data model of the aggregation engine.
//!
//! Input types mirror what one request fetches from the upstream transit
//! service, reduced to the fields the aggregators read; distances arrive
//! already computed, as fixed-point integers in whatever unit the caller
//! chose, so the ordering the library proves is the ordering of those
//! numbers.  Output types are the nested shapes the query layer expects.

use vstd::prelude::*;

verus! {

/// Reference from a stop-time record to the trip serving it and the route
/// that trip belongs to.
#[derive(Debug, Clone, PartialEq, Eq)]
pub struct TripRef {
    pub id: String,
    pub route_id: String,
}

/// One scheduled call of a trip at a stop.  The times are epoch seconds
/// as decimal text, either of which may be absent.
#[derive(Debug, Clone, PartialEq, Eq)]
pub struct StopTime {
    pub trip: Option<TripRef>,
    pub arrival: Option<String>,
    pub departure: Option<String>,
}

/// A stop as handed to the nearby-train-times aggregator.  `distance` is
/// the great-circle distance from the caller's position, already computed
/// outside the library as a fixed-point integer; it is absent exactly
/// when the upstream record lacked a coordinate.
#[derive(Debug, Clone, PartialEq, Eq)]
pub struct Stop {
    pub id: String,
    pub name: Option<String>,
    pub distance: Option<u64>,
    pub stop_times: Vec<StopTime>,
}

/// Lightweight alert reference embedded in a route; the full text lives
/// in a separate [`Alert`] record joined by identifier.
#[derive(Debug, Clone, PartialEq, Eq)]
pub struct AlertPreview {
    pub id: String,
    pub cause: String,
    pub effect: String,
}

/// A route together with its alert previews.
#[derive(Debug, Clone, PartialEq, Eq)]
pub struct Route {
    pub id: String,
    pub alerts: Vec<AlertPreview>,
}

/// One localized message of an alert.
#[derive(Debug, Clone, PartialEq, Eq)]
pub struct AlertMessage {
    pub text: String,
    pub language: String,
}

/// Full alert record from the alerts fetch.
#[derive(Debug, Clone, PartialEq, Eq)]
pub struct Alert {
    pub id: String,
    pub header: Vec<AlertMessage>,
    pub description: Vec<AlertMessage>,
    pub url: Vec<AlertMessage>,
}

/// One upcoming call in a nearby-train-times answer.
#[derive(Debug, Clone, PartialEq, Eq)]
pub struct TripTime {
    pub trip_id: String,
    pub arrival: u64,
}

/// Upcoming calls at one stop for one route.
#[derive(Debug, Clone, PartialEq, Eq)]
pub struct RouteTrips {
    pub route: String,
    pub trips: Vec<TripTime>,
}

/// The stop header of a nearby-train-times entry.
#[derive(Debug, Clone, PartialEq, Eq)]
pub struct StopInfo {
    pub stop_id: String,
    pub name: String,
    pub distance: u64,
}

/// One entry of a nearby-train-times answer: a stop and its route groups.
#[derive(Debug, Clone, PartialEq, Eq)]
pub struct StopRouteTrips {
    pub stop: StopInfo,
    pub route_trips: Vec<RouteTrips>,
}

/// The joined alert record of a route-status answer.
#[derive(Debug, Clone, PartialEq, Eq)]
pub struct AlertStatus {
    pub id: String,
    pub cause: String,
    pub effect: String,
    pub headers: Vec<AlertMessage>,
    pub descriptions: Vec<AlertMessage>,
    pub urls: Vec<AlertMessage>,
}

/// One entry of a route-status answer.
#[derive(Debug, Clone, PartialEq, Eq)]
pub struct RouteStatus {
    pub route_id: String,
    pub running: bool,
    pub alerts: Vec<AlertStatus>,
}

/// Mathematical model of [`TripRef`].
#[verifier::ext_equal]
pub ghost struct TripRefView {
    pub id: Seq<char>,
    pub route_id: Seq<char>,
}

/// Mathematical model of [`StopTime`].
#[verifier::ext_equal]
pub ghost struct StopTimeView {
    pub trip: Option<TripRefView>,
    pub arrival: Option<Seq<char>>,
    pub departure: Option<Seq<char>>,
}

/// Mathematical model of [`Stop`].
#[verifier::ext_equal]
pub ghost struct StopView {
    pub id: Seq<char>,
    pub name: Option<Seq<char>>,
    pub distance: Option<u64>,
    pub stop_times: Seq<StopTimeView>,
}

/// Mathematical model of [`AlertPreview`].
#[verifier::ext_equal]
pub ghost struct AlertPreviewView {
    pub id: Seq<char>,
    pub cause: Seq<char>,
    pub effect: Seq<char>,
}

/// Mathematical model of [`Route`].
#[verifier::ext_equal]
pub ghost struct RouteView {
    pub id: Seq<char>,
    pub alerts: Seq<AlertPreviewView>,
}

/// Mathematical model of [`AlertMessage`].
#[verifier::ext_equal]
pub ghost struct AlertMessageView {
    pub text: Seq<char>,
    pub language: Seq<char>,
}

/// Mathematical model of [`Alert`].
#[verifier::ext_equal]
pub ghost struct AlertView {
    pub id: Seq<char>,
    pub header: Seq<AlertMessageView>,
    pub description: Seq<AlertMessageView>,
    pub url: Seq<AlertMessageView>,
}

/// Mathematical model of [`TripTime`].
#[verifier::ext_equal]
pub ghost struct TripTimeView {
    pub trip_id: Seq<char>,
    pub arrival: u64,
}

/// Mathematical model of [`RouteTrips`].
#[verifier::ext_equal]
pub ghost struct RouteTripsView {
    pub route: Seq<char>,
    pub trips: Seq<TripTimeView>,
}

/// Mathematical model of [`StopInfo`].
#[verifier::ext_equal]
pub ghost struct StopInfoView {
    pub stop_id: Seq<char>,
    pub name: Seq<char>,
    pub distance: u64,
}

/// Mathematical model of [`StopRouteTrips`].
#[verifier::ext_equal]
pub ghost struct StopRouteTripsView {
    pub stop: StopInfoView,
    pub route_trips: Seq<RouteTripsView>,
}

/// Mathematical model of [`AlertStatus`].
#[verifier::ext_equal]
pub ghost struct AlertStatusView {
    pub id: Seq<char>,
    pub cause: Seq<char>,
    pub effect: Seq<char>,
    pub headers: Seq<AlertMessageView>,
    pub descriptions: Seq<AlertMessageView>,
    pub urls: Seq<AlertMessageView>,
}

/// Mathematical model of [`RouteStatus`].
#[verifier::ext_equal]
pub ghost struct RouteStatusView {
    pub route_id: Seq<char>,
    pub running: bool,
    pub alerts: Seq<AlertStatusView>,
}

impl DeepView for TripRef {
    type V = TripRefView;

    open spec fn deep_view(&self) -> TripRefView {
        TripRefView { id: self.id.deep_view(), route_id: self.route_id.deep_view() }
    }
}

impl DeepView for StopTime {
    type V = StopTimeView;

    open spec fn deep_view(&self) -> StopTimeView {
        StopTimeView {
            trip: self.trip.deep_view(),
            arrival: self.arrival.deep_view(),
            departure: self.departure.deep_view(),
        }
    }
}

impl DeepView for Stop {
    type V = StopView;

    open spec fn deep_view(&self) -> StopView {
        StopView {
            id: self.id.deep_view(),
            name: self.name.deep_view(),
            distance: self.distance.deep_view(),
            stop_times: self.stop_times.deep_view(),
        }
    }
}

impl DeepView for AlertPreview {
    type V = AlertPreviewView;

    open spec fn deep_view(&self) -> AlertPreviewView {
        AlertPreviewView {
            id: self.id.deep_view(),
            cause: self.cause.deep_view(),
            effect: self.effect.deep_view(),
        }
    }
}

impl DeepView for Route {
    type V = RouteView;

    open spec fn deep_view(&self) -> RouteView {
        RouteView { id: self.id.deep_view(), alerts: self.alerts.deep_view() }
    }
}

impl DeepView for AlertMessage {
    type V = AlertMessageView;

    open spec fn deep_view(&self) -> AlertMessageView {
        AlertMessageView { text: self.text.deep_view(), language: self.language.deep_view() }
    }
}

impl DeepView for Alert {
    type V = AlertView;

    open spec fn deep_view(&self) -> AlertView {
        AlertView {
            id: self.id.deep_view(),
            header: self.header.deep_view(),
            description: self.description.deep_view(),
            url: self.url.deep_view(),
        }
    }
}

impl DeepView for TripTime {
    type V = TripTimeView;

    open spec fn deep_view(&self) -> TripTimeView {
        TripTimeView { trip_id: self.trip_id.deep_view(), arrival: self.arrival }
    }
}

impl DeepView for RouteTrips {
    type V = RouteTripsView;

    open spec fn deep_view(&self) -> RouteTripsView {
        RouteTripsView { route: self.route.deep_view(), trips: self.trips.deep_view() }
    }
}

impl DeepView for StopInfo {
    type V = StopInfoView;

    open spec fn deep_view(&self) -> StopInfoView {
        StopInfoView {
            stop_id: self.stop_id.deep_view(),
            name: self.name.deep_view(),
            distance: self.distance,
        }
    }
}

impl DeepView for StopRouteTrips {
    type V = StopRouteTripsView;

    open spec fn deep_view(&self) -> StopRouteTripsView {
        StopRouteTripsView {
            stop: self.stop.deep_view(),
            route_trips: self.route_trips.deep_view(),
        }
    }
}

impl DeepView for AlertStatus {
    type V = AlertStatusView;

    open spec fn deep_view(&self) -> AlertStatusView {
        AlertStatusView {
            id: self.id.deep_view(),
            cause: self.cause.deep_view(),
            effect: self.effect.deep_view(),
            headers: self.headers.deep_view(),
            descriptions: self.descriptions.deep_view(),
            urls: self.urls.deep_view(),
        }
    }
}

impl DeepView for RouteStatus {
    type V = RouteStatusView;

    open spec fn deep_view(&self) -> RouteStatusView {
        RouteStatusView {
            route_id: self.route_id.deep_view(),
            running: self.running,
            alerts: self.alerts.deep_view(),
        }
    }
}

} // verus!

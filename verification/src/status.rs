//! Route-status aggregation: filter the fetched routes to the requested
//! ones, join every alert preview against the full alerts fetch, and mark
//! each route as running from its already-fetched trip count.
//!
//! The per-route trip fetches happen outside the library; this module
//! only consumes their counts, so when no running status was requested
//! no count is passed in and no fetch is ever made.

use crate::error::IntegrityError;
use crate::model::Alert;
use crate::model::AlertMessage;
use crate::model::AlertPreviewView;
use crate::model::AlertStatus;
use crate::model::AlertStatusView;
use crate::model::AlertView;
use crate::model::Route;
use crate::model::RouteStatus;
use crate::model::RouteStatusView;
use crate::model::RouteView;
use crate::text::contains_str;
use crate::text::str_eq;
use crate::text::vec_contains_str;
use vstd::prelude::*;

verus! {

/// The route passes the request filter: an absent filter keeps every
/// route.
pub open spec fn route_wanted(r: RouteView, req: Option<Seq<Seq<char>>>) -> bool {
    match req {
        None => true,
        Some(rs) => contains_str(rs, r.id),
    }
}

/// The fetched routes reduced to the requested ones, upstream order kept.
pub open spec fn filter_routes_spec(routes: Seq<RouteView>, req: Option<Seq<Seq<char>>>) -> Seq<
    RouteView,
>
    decreases routes.len(),
{
    if routes.len() == 0 {
        Seq::empty()
    } else {
        let rest = filter_routes_spec(routes.drop_last(), req);
        if route_wanted(routes.last(), req) {
            rest.push(routes.last())
        } else {
            rest
        }
    }
}

/// The alert record the identifier resolves to; when several records
/// share an identifier the one fetched last wins.
pub open spec fn find_alert(alerts: Seq<AlertView>, id: Seq<char>) -> Option<AlertView>
    decreases alerts.len(),
{
    if alerts.len() == 0 {
        None
    } else if alerts.last().id == id {
        Some(alerts.last())
    } else {
        find_alert(alerts.drop_last(), id)
    }
}

/// Join one preview with its full alert record: identity, cause and
/// effect come from the preview; the message lists come verbatim from
/// the joined record.
pub open spec fn join_alert(p: AlertPreviewView, a: AlertView) -> AlertStatusView {
    AlertStatusView {
        id: p.id,
        cause: p.cause,
        effect: p.effect,
        headers: a.header,
        descriptions: a.description,
        urls: a.url,
    }
}

/// Every preview of the list resolves against the alerts fetch.
pub open spec fn previews_resolvable(ps: Seq<AlertPreviewView>, alerts: Seq<AlertView>) -> bool {
    forall|j: int| 0 <= j < ps.len() ==> find_alert(alerts, ps[j].id) is Some
}

/// Every preview of every route resolves against the alerts fetch.
pub open spec fn routes_resolvable(routes: Seq<RouteView>, alerts: Seq<AlertView>) -> bool {
    forall|i: int| 0 <= i < routes.len() ==> previews_resolvable(routes[i].alerts, alerts)
}

/// The joined alert list of one route, preview order kept.
pub open spec fn join_previews(ps: Seq<AlertPreviewView>, alerts: Seq<AlertView>) -> Seq<
    AlertStatusView,
>
    decreases ps.len(),
{
    if ps.len() == 0 {
        Seq::empty()
    } else {
        join_previews(ps.drop_last(), alerts).push(
            join_alert(ps.last(), find_alert(alerts, ps.last().id).unwrap()),
        )
    }
}

/// Whether route `i` counts as running given the optional trip counts:
/// without counts every route reads as not running.
pub open spec fn running_of(counts: Option<Seq<usize>>, i: int) -> bool {
    match counts {
        Some(c) => c[i] > 0,
        None => false,
    }
}

/// The whole route-status answer: one record per retained route, in
/// order.
pub open spec fn route_statuses_spec(
    routes: Seq<RouteView>,
    alerts: Seq<AlertView>,
    counts: Option<Seq<usize>>,
) -> Seq<RouteStatusView> {
    Seq::new(
        routes.len(),
        |i: int|
            RouteStatusView {
                route_id: routes[i].id,
                running: running_of(counts, i),
                alerts: join_previews(routes[i].alerts, alerts),
            },
    )
}

/// View of the optional request filter.
pub open spec fn req_view(requested: Option<&Vec<String>>) -> Option<Seq<Seq<char>>> {
    match requested {
        Some(v) => Some(v.deep_view()),
        None => None,
    }
}

/// View of the optional trip counts.
pub open spec fn counts_view(counts: Option<&Vec<usize>>) -> Option<Seq<usize>> {
    match counts {
        Some(c) => Some(c.deep_view()),
        None => None,
    }
}

/// Keep the routes the request asks for; an absent filter keeps all,
/// and the upstream order is preserved.
pub fn filter_routes(routes: Vec<Route>, requested: Option<&Vec<String>>) -> (r: Vec<Route>)
    ensures
        r.deep_view() == filter_routes_spec(routes.deep_view(), req_view(requested)),
{
    let ghost orig = routes.deep_view();
    let total: usize = routes.len();
    let mut rest = routes;
    let mut out: Vec<Route> = Vec::new();
    let mut k: usize = 0;
    proof {
        assert(orig.skip(0) =~= orig);
        assert(out.deep_view() =~= filter_routes_spec(orig.take(0), req_view(requested)));
    }
    while rest.len() > 0
        invariant
            k <= total,
            total == orig.len(),
            k + rest@.len() == total,
            rest.deep_view() == orig.skip(k as int),
            out.deep_view() == filter_routes_spec(orig.take(k as int), req_view(requested)),
        decreases rest@.len(),
    {
        let r0 = rest.remove(0);
        proof {
            assert(rest.deep_view() =~= orig.skip(k as int).remove(0));
            assert(orig.skip(k as int).remove(0) =~= orig.skip(k as int + 1));
            assert(r0.deep_view() == orig.skip(k as int)[0]);
            assert(orig.skip(k as int)[0] == orig[k as int]);
            assert(orig.take(k as int + 1).drop_last() =~= orig.take(k as int));
            assert(orig.take(k as int + 1).last() == orig[k as int]);
        }
        let keep = match requested {
            None => true,
            Some(rs) => vec_contains_str(rs, r0.id.as_str()),
        };
        if keep {
            out.push(r0);
            proof {
                assert(out.deep_view() =~= filter_routes_spec(
                    orig.take(k as int + 1),
                    req_view(requested),
                ));
            }
        }
        k = k + 1;
    }
    proof {
        assert(orig.take(k as int) =~= orig);
    }
    out
}

/// Index of the alert record the identifier resolves to, scanning the
/// fetch from its end so that a later duplicate wins.
fn find_alert_idx(alerts: &Vec<Alert>, id: &str) -> (r: Option<usize>)
    ensures
        match r {
            Some(j) => j < alerts@.len() && find_alert(alerts.deep_view(), id@) == Some(
                alerts.deep_view()[j as int],
            ),
            None => find_alert(alerts.deep_view(), id@) is None,
        },
{
    let ghost av = alerts.deep_view();
    let mut i: usize = alerts.len();
    proof {
        assert(av.take(av.len() as int) =~= av);
    }
    while i > 0
        invariant
            i <= av.len(),
            av == alerts.deep_view(),
            av.len() == alerts@.len(),
            find_alert(av, id@) == find_alert(av.take(i as int), id@),
        decreases i,
    {
        proof {
            assert(av.take(i as int).last() == av[i as int - 1]);
            assert(av.take(i as int).drop_last() =~= av.take(i as int - 1));
            assert(av[i as int - 1] == alerts@[i as int - 1].deep_view());
        }
        let hit = str_eq(alerts[i - 1].id.as_str(), id);
        if hit {
            proof {
                assert(av.take(i as int).last().id == id@);
                assert(find_alert(av.take(i as int), id@) == Some(av[i as int - 1]));
            }
            return Some(i - 1);
        }
        proof {
            assert(av.take(i as int).last().id != id@);
            assert(find_alert(av.take(i as int), id@) == find_alert(av.take(i as int - 1), id@));
        }
        i = i - 1;
    }
    proof {
        assert(av.take(0) =~= Seq::<AlertView>::empty());
    }
    None
}

/// Copy a message list verbatim.
fn clone_messages(v: &Vec<AlertMessage>) -> (r: Vec<AlertMessage>)
    ensures
        r.deep_view() == v.deep_view(),
{
    let mut out: Vec<AlertMessage> = Vec::new();
    let mut i: usize = 0;
    while i < v.len()
        invariant
            i <= v@.len(),
            out@.len() == i,
            out.deep_view() == v.deep_view().take(i as int),
        decreases v@.len() - i,
    {
        let m = AlertMessage { text: v[i].text.clone(), language: v[i].language.clone() };
        proof {
            assert(v.deep_view()[i as int] == v@[i as int].deep_view());
            assert(m.deep_view() =~= v@[i as int].deep_view());
        }
        let ghost prev_dv = out.deep_view();
        out.push(m);
        proof {
            assert(out.deep_view() =~= prev_dv.push(m.deep_view()));
            assert(prev_dv.push(m.deep_view()) =~= v.deep_view().take(i as int + 1));
        }
        i = i + 1;
    }
    proof {
        assert(v.deep_view().take(i as int) =~= v.deep_view());
    }
    out
}

/// Join every alert preview of one route against the alerts fetch.  The
/// whole route fails on the first preview whose identifier is absent
/// from the fetch.
pub fn join_route_alerts(route: &Route, alerts: &Vec<Alert>) -> (r: Result<
    Vec<AlertStatus>,
    IntegrityError,
>)
    ensures
        r is Ok <==> previews_resolvable(route.deep_view().alerts, alerts.deep_view()),
        r is Ok ==> r.unwrap().deep_view() == join_previews(
            route.deep_view().alerts,
            alerts.deep_view(),
        ),
        r is Err ==> (r matches Err(IntegrityError::UnknownAlertId(x)) && exists|j: int|
            0 <= j < route.deep_view().alerts.len() && find_alert(
                alerts.deep_view(),
                route.deep_view().alerts[j].id,
            ) is None && x@ == route.deep_view().alerts[j].id),
{
    let ghost ps = route.deep_view().alerts;
    let ghost av = alerts.deep_view();
    let mut out: Vec<AlertStatus> = Vec::new();
    let mut j: usize = 0;
    proof {
        assert(out.deep_view() =~= join_previews(ps.take(0), av));
    }
    while j < route.alerts.len()
        invariant
            j <= ps.len(),
            ps == route.deep_view().alerts,
            av == alerts.deep_view(),
            ps.len() == route.alerts@.len(),
            forall|j2: int| 0 <= j2 < j ==> find_alert(av, ps[j2].id) is Some,
            out.deep_view() == join_previews(ps.take(j as int), av),
        decreases ps.len() - j,
    {
        let p = &route.alerts[j];
        proof {
            assert(p.deep_view() == ps[j as int]);
        }
        match find_alert_idx(alerts, p.id.as_str()) {
            None => {
                return Err(IntegrityError::UnknownAlertId(p.id.clone()));
            },
            Some(ai) => {
                let a = &alerts[ai];
                proof {
                    assert(a.deep_view() == av[ai as int]);
                }
                let st = AlertStatus {
                    id: p.id.clone(),
                    cause: p.cause.clone(),
                    effect: p.effect.clone(),
                    headers: clone_messages(&a.header),
                    descriptions: clone_messages(&a.description),
                    urls: clone_messages(&a.url),
                };
                proof {
                    assert(st.deep_view() =~= join_alert(ps[j as int], av[ai as int]));
                    assert(ps.take(j as int + 1).drop_last() =~= ps.take(j as int));
                    assert(ps.take(j as int + 1).last() == ps[j as int]);
                }
                out.push(st);
                proof {
                    assert(out.deep_view() =~= join_previews(ps.take(j as int + 1), av));
                }
            },
        }
        j = j + 1;
    }
    proof {
        assert(ps.take(j as int) =~= ps);
    }
    Ok(out)
}

/// Build the route-status answer for the already-filtered routes.
///
/// `trip_counts`, when present, holds one upcoming-trip count per route,
/// in the same order; a route is running exactly when its count is
/// positive.  When absent, every route reads as not running.  The whole
/// answer fails, with no partial list, as soon as any route references
/// an alert identifier absent from the fetch.
pub fn build_route_statuses(
    routes: &Vec<Route>,
    alerts: &Vec<Alert>,
    trip_counts: Option<&Vec<usize>>,
) -> (r: Result<Vec<RouteStatus>, IntegrityError>)
    requires
        match trip_counts {
            Some(c) => c@.len() == routes@.len(),
            None => true,
        },
    ensures
        r is Ok <==> routes_resolvable(routes.deep_view(), alerts.deep_view()),
        r is Ok ==> r.unwrap().deep_view() == route_statuses_spec(
            routes.deep_view(),
            alerts.deep_view(),
            counts_view(trip_counts),
        ),
        r is Ok ==> forall|i: int|
            0 <= i < routes.deep_view().len() ==> r.unwrap().deep_view()[i].route_id
                == routes.deep_view()[i].id,
        (r is Ok && trip_counts is None) ==> forall|i: int|
            0 <= i < routes.deep_view().len() ==> r.unwrap().deep_view()[i].running == false,
        r is Err ==> (r matches Err(IntegrityError::UnknownAlertId(x)) && exists|i: int, j: int|
            0 <= i < routes.deep_view().len() && 0 <= j < routes.deep_view()[i].alerts.len()
                && find_alert(alerts.deep_view(), routes.deep_view()[i].alerts[j].id) is None && x@
                == routes.deep_view()[i].alerts[j].id),
{
    let ghost rv = routes.deep_view();
    let ghost av = alerts.deep_view();
    let ghost full = route_statuses_spec(rv, av, counts_view(trip_counts));
    let mut out: Vec<RouteStatus> = Vec::new();
    let mut i: usize = 0;
    proof {
        assert(out.deep_view() =~= full.take(0));
    }
    while i < routes.len()
        invariant
            i <= rv.len(),
            rv == routes.deep_view(),
            av == alerts.deep_view(),
            rv.len() == routes@.len(),
            full == route_statuses_spec(rv, av, counts_view(trip_counts)),
            match trip_counts {
                Some(c) => c@.len() == routes@.len(),
                None => true,
            },
            forall|i2: int| 0 <= i2 < i ==> previews_resolvable(rv[i2].alerts, av),
            out@.len() == i,
            out.deep_view() == full.take(i as int),
        decreases rv.len() - i,
    {
        let route = &routes[i];
        proof {
            assert(route.deep_view() == rv[i as int]);
        }
        match join_route_alerts(route, alerts) {
            Err(e) => {
                return Err(e);
            },
            Ok(statuses) => {
                let running = match trip_counts {
                    Some(c) => c[i] > 0,
                    None => false,
                };
                let rec = RouteStatus { route_id: route.id.clone(), running, alerts: statuses };
                proof {
                    assert(running == running_of(counts_view(trip_counts), i as int));
                    assert(rec.deep_view() =~= full[i as int]);
                }
                let ghost prev_dv = out.deep_view();
                out.push(rec);
                proof {
                    assert(out.deep_view() =~= prev_dv.push(rec.deep_view()));
                    assert(prev_dv.push(rec.deep_view()) =~= full.take(i as int + 1));
                }
            },
        }
        i = i + 1;
    }
    proof {
        assert(full.take(i as int) =~= full);
    }
    Ok(out)
}

} // verus!

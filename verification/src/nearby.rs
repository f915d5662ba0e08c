//! Nearby-train-times aggregation: keep the stops serving the requested
//! direction, group each stop's upcoming calls by route, keep only the
//! requested routes and the calls with a usable time, and order the
//! surviving stops by distance.

use crate::direction::Direction;
use crate::epoch::parse_epoch;
use crate::epoch::parse_epoch_spec;
use crate::error::IntegrityError;
use crate::model::RouteTrips;
use crate::model::RouteTripsView;
use crate::model::Stop;
use crate::model::StopInfo;
use crate::model::StopInfoView;
use crate::model::StopRouteTrips;
use crate::model::StopRouteTripsView;
use crate::model::StopTime;
use crate::model::StopTimeView;
use crate::model::StopView;
use crate::model::TripTime;
use crate::model::TripTimeView;
use crate::text::contains_str;
use crate::text::ends_with;
use crate::text::ends_with_char;
use crate::text::str_eq;
use crate::text::str_le;
use crate::text::str_le_exec;
use crate::text::vec_contains_str;
use vstd::prelude::*;

verus! {

/// The route identifier a stop-time record belongs to, through its trip.
pub open spec fn key_of(st: StopTimeView) -> Option<Seq<char>> {
    match st.trip {
        Some(t) => Some(t.route_id),
        None => None,
    }
}

/// Epoch value of one optional time text.
pub open spec fn time_of(t: Option<Seq<char>>) -> Option<u64> {
    match t {
        Some(s) => parse_epoch_spec(s),
        None => None,
    }
}

/// The time a record contributes: its arrival when present and
/// parseable, else its departure when present and parseable, else
/// nothing — such a record is dropped.
pub open spec fn usable_time(st: StopTimeView) -> Option<u64> {
    if time_of(st.arrival) is Some {
        time_of(st.arrival)
    } else {
        time_of(st.departure)
    }
}

/// The distinct route identifiers among the records that carry a trip,
/// in order of first appearance.
pub open spec fn route_keys(sts: Seq<StopTimeView>) -> Seq<Seq<char>>
    decreases sts.len(),
{
    if sts.len() == 0 {
        Seq::empty()
    } else {
        let rest = route_keys(sts.drop_last());
        match key_of(sts.last()) {
            Some(k) => if rest.contains(k) {
                rest
            } else {
                rest.push(k)
            },
            None => rest,
        }
    }
}

/// Insert a key into a list sorted by [`str_le`], after any equal keys.
pub open spec fn insert_key(k: Seq<char>, s: Seq<Seq<char>>) -> Seq<Seq<char>>
    decreases s.len(),
{
    if s.len() == 0 {
        seq![k]
    } else if str_le(s.last(), k) {
        s.push(k)
    } else {
        insert_key(k, s.drop_last()).push(s.last())
    }
}

/// The keys arranged by [`str_le`] through insertion.
pub open spec fn sort_keys(s: Seq<Seq<char>>) -> Seq<Seq<char>>
    decreases s.len(),
{
    if s.len() == 0 {
        Seq::empty()
    } else {
        insert_key(s.last(), sort_keys(s.drop_last()))
    }
}

/// The calls of route `k` at this stop, in upstream order, reduced to
/// trip identifier and epoch.
pub open spec fn trips_for_route(sts: Seq<StopTimeView>, k: Seq<char>) -> Seq<TripTimeView>
    decreases sts.len(),
{
    if sts.len() == 0 {
        Seq::empty()
    } else {
        let rest = trips_for_route(sts.drop_last(), k);
        let st = sts.last();
        if key_of(st) == Some(k) && usable_time(st) is Some {
            rest.push(TripTimeView { trip_id: st.trip.unwrap().id, arrival: usable_time(st).unwrap() })
        } else {
            rest
        }
    }
}

/// One route group per key that is requested and has surviving calls,
/// in key order.
pub open spec fn groups_for_keys(
    keys: Seq<Seq<char>>,
    sts: Seq<StopTimeView>,
    rs: Seq<Seq<char>>,
) -> Seq<RouteTripsView>
    decreases keys.len(),
{
    if keys.len() == 0 {
        Seq::empty()
    } else {
        let rest = groups_for_keys(keys.drop_last(), sts, rs);
        let k = keys.last();
        if contains_str(rs, k) && trips_for_route(sts, k).len() > 0 {
            rest.push(RouteTripsView { route: k, trips: trips_for_route(sts, k) })
        } else {
            rest
        }
    }
}

/// The route groups of one stop: distinct route keys in [`str_le`]
/// order, reduced to the requested routes and to groups with at least
/// one surviving call.
pub open spec fn stop_route_groups(sts: Seq<StopTimeView>, rs: Seq<Seq<char>>) -> Seq<
    RouteTripsView,
> {
    groups_for_keys(sort_keys(route_keys(sts)), sts, rs)
}

/// The time this record contributes, preferring arrival over departure.
pub fn stop_time_epoch(st: &StopTime) -> (r: Option<u64>)
    ensures
        r == usable_time(st.deep_view()),
{
    match &st.arrival {
        Some(a) => {
            match parse_epoch(a.as_str()) {
                Some(v) => Some(v),
                None => departure_epoch(st),
            }
        },
        None => departure_epoch(st),
    }
}

/// The epoch of the departure text alone.
fn departure_epoch(st: &StopTime) -> (r: Option<u64>)
    ensures
        r == time_of(st.deep_view().departure),
{
    match &st.departure {
        Some(d) => parse_epoch(d.as_str()),
        None => None,
    }
}

/// Distinct route identifiers among the records with a trip, in order
/// of first appearance.
fn collect_route_keys(stop_times: &Vec<StopTime>) -> (keys: Vec<String>)
    ensures
        keys.deep_view() == route_keys(stop_times.deep_view()),
{
    let ghost sv = stop_times.deep_view();
    let mut keys: Vec<String> = Vec::new();
    let mut i: usize = 0;
    proof {
        assert(keys.deep_view() =~= route_keys(sv.take(0)));
    }
    while i < stop_times.len()
        invariant
            i <= stop_times@.len(),
            sv == stop_times.deep_view(),
            sv.len() == stop_times@.len(),
            keys.deep_view() == route_keys(sv.take(i as int)),
        decreases stop_times@.len() - i,
    {
        let st = &stop_times[i];
        proof {
            assert(st.deep_view() == sv[i as int]);
            assert(sv.take(i as int + 1).drop_last() =~= sv.take(i as int));
            assert(sv.take(i as int + 1).last() == sv[i as int]);
        }
        match &st.trip {
            Some(t) => {
                let dup = vec_contains_str(&keys, t.route_id.as_str());
                proof {
                    assert(key_of(sv[i as int]) == Some(t.route_id@));
                    assert(contains_str(keys.deep_view(), t.route_id@) == keys.deep_view()
                        .contains(t.route_id@));
                }
                if !dup {
                    let ghost prev_dv = keys.deep_view();
                    keys.push(t.route_id.clone());
                    proof {
                        assert(keys.deep_view() =~= prev_dv.push(t.route_id@));
                    }
                }
            },
            None => {
                proof {
                    assert(key_of(sv[i as int]) is None);
                }
            },
        }
        i = i + 1;
    }
    proof {
        assert(sv.take(i as int) =~= sv);
    }
    keys
}

/// Insert one key into an already sorted vector, after any equal keys.
fn insert_sorted_key(v: &mut Vec<String>, k: String)
    ensures
        final(v).deep_view() == insert_key(k@, old(v).deep_view()),
{
    let ghost orig = v.deep_view();
    let mut j: usize = v.len();
    let mut done = false;
    proof {
        assert(orig.skip(j as int) =~= Seq::<Seq<char>>::empty());
        assert(orig.take(j as int) =~= orig);
        assert(insert_key(k@, orig.take(j as int)) + orig.skip(j as int) =~= insert_key(k@, orig));
    }
    while j > 0 && !done
        invariant
            j <= orig.len(),
            orig == v.deep_view(),
            orig.len() == v@.len(),
            insert_key(k@, orig) == insert_key(k@, orig.take(j as int)) + orig.skip(j as int),
            done ==> j > 0 && str_le(orig[j as int - 1], k@),
        decreases j + (if done { 0int } else { 1int }),
    {
        let le = str_le_exec(v[j - 1].as_str(), k.as_str());
        proof {
            assert(v.deep_view()[j as int - 1] == v@[j as int - 1]@);
        }
        if le {
            done = true;
        } else {
            proof {
                assert(orig.take(j as int).last() == orig[j as int - 1]);
                assert(orig.take(j as int).drop_last() =~= orig.take(j as int - 1));
                assert(insert_key(k@, orig.take(j as int)) == insert_key(
                    k@,
                    orig.take(j as int - 1),
                ).push(orig[j as int - 1]));
                assert(insert_key(k@, orig.take(j as int - 1)).push(orig[j as int - 1]) + orig.skip(
                    j as int,
                ) =~= insert_key(k@, orig.take(j as int - 1)) + orig.skip(j as int - 1));
            }
            j = j - 1;
        }
    }
    proof {
        if j > 0 {
            assert(str_le(orig[j as int - 1], k@));
            assert(orig.take(j as int).last() == orig[j as int - 1]);
            assert(insert_key(k@, orig.take(j as int)) == orig.take(j as int).push(k@));
        } else {
            assert(orig.take(0).len() == 0);
            assert(insert_key(k@, orig.take(j as int)) == orig.take(j as int).push(k@));
        }
    }
    let ghost prev_dv = v.deep_view();
    v.insert(j, k);
    proof {
        assert(v.deep_view() =~= prev_dv.insert(j as int, k@));
        assert(prev_dv.insert(j as int, k@) =~= orig.take(j as int).push(k@) + orig.skip(j as int));
        assert(v.deep_view() =~= insert_key(k@, orig));
    }
}

/// Arrange route keys in [`str_le`] order by insertion sort.
fn sort_route_keys(keys: Vec<String>) -> (r: Vec<String>)
    ensures
        r.deep_view() == sort_keys(keys.deep_view()),
{
    let ghost orig = keys.deep_view();
    let total: usize = keys.len();
    let mut rest = keys;
    let mut out: Vec<String> = Vec::new();
    let mut n: usize = 0;
    proof {
        assert(orig.skip(0) =~= orig);
        assert(out.deep_view() =~= sort_keys(orig.take(0)));
    }
    while rest.len() > 0
        invariant
            n <= total,
            total == orig.len(),
            n + rest@.len() == total,
            rest.deep_view() == orig.skip(n as int),
            out.deep_view() == sort_keys(orig.take(n as int)),
        decreases rest@.len(),
    {
        let k0 = rest.remove(0);
        proof {
            assert(rest.deep_view() =~= orig.skip(n as int).remove(0));
            assert(orig.skip(n as int).remove(0) =~= orig.skip(n as int + 1));
            assert(k0.deep_view() == orig.skip(n as int)[0]);
            assert(orig.skip(n as int)[0] == orig[n as int]);
            assert(orig.take(n as int + 1).drop_last() =~= orig.take(n as int));
            assert(orig.take(n as int + 1).last() == orig[n as int]);
        }
        insert_sorted_key(&mut out, k0);
        n = n + 1;
    }
    proof {
        assert(orig.take(n as int) =~= orig);
    }
    out
}

/// The surviving calls of route `k` at this stop, in upstream order.
fn collect_trips(stop_times: &Vec<StopTime>, k: &String) -> (r: Vec<TripTime>)
    ensures
        r.deep_view() == trips_for_route(stop_times.deep_view(), k@),
{
    let ghost sv = stop_times.deep_view();
    let mut out: Vec<TripTime> = Vec::new();
    let mut i: usize = 0;
    proof {
        assert(out.deep_view() =~= trips_for_route(sv.take(0), k@));
    }
    while i < stop_times.len()
        invariant
            i <= stop_times@.len(),
            sv == stop_times.deep_view(),
            sv.len() == stop_times@.len(),
            out.deep_view() == trips_for_route(sv.take(i as int), k@),
        decreases stop_times@.len() - i,
    {
        let st = &stop_times[i];
        proof {
            assert(st.deep_view() == sv[i as int]);
            assert(sv.take(i as int + 1).drop_last() =~= sv.take(i as int));
            assert(sv.take(i as int + 1).last() == sv[i as int]);
        }
        match &st.trip {
            Some(t) => {
                let same = str_eq(t.route_id.as_str(), k.as_str());
                if same {
                    match stop_time_epoch(st) {
                        Some(e) => {
                            let trip = TripTime { trip_id: t.id.clone(), arrival: e };
                            proof {
                                assert(key_of(sv[i as int]) == Some(k@));
                                assert(trip.deep_view() =~= TripTimeView {
                                    trip_id: sv[i as int].trip.unwrap().id,
                                    arrival: usable_time(sv[i as int]).unwrap(),
                                });
                            }
                            let ghost prev_dv = out.deep_view();
                            out.push(trip);
                            proof {
                                assert(out.deep_view() =~= prev_dv.push(trip.deep_view()));
                            }
                        },
                        None => {
                            proof {
                                assert(usable_time(sv[i as int]) is None);
                            }
                        },
                    }
                } else {
                    proof {
                        assert(key_of(sv[i as int]) != Some(k@));
                    }
                }
            },
            None => {
                proof {
                    assert(key_of(sv[i as int]) is None);
                }
            },
        }
        i = i + 1;
    }
    proof {
        assert(sv.take(i as int) =~= sv);
    }
    out
}

/// The route groups of one stop: its calls grouped by route in key
/// order, reduced to the requested routes, usable calls only, and no
/// empty group.
pub fn trips_by_route_for_stop(stop_times: &Vec<StopTime>, requested: &Vec<String>) -> (r: Vec<
    RouteTrips,
>)
    ensures
        r.deep_view() == stop_route_groups(stop_times.deep_view(), requested.deep_view()),
        forall|g: int|
            0 <= g < r.deep_view().len() ==> contains_str(
                requested.deep_view(),
                (#[trigger] r.deep_view()[g]).route,
            ),
        forall|g: int, t: int|
            0 <= g < r.deep_view().len() && 0 <= t < r.deep_view()[g].trips.len()
                ==> trip_has_source(
                stop_times.deep_view(),
                r.deep_view()[g].route,
                #[trigger] r.deep_view()[g].trips[t],
            ),
{
    let ghost sv = stop_times.deep_view();
    let ghost rs = requested.deep_view();
    let keys = sort_route_keys(collect_route_keys(stop_times));
    let ghost kv = keys.deep_view();
    let mut out: Vec<RouteTrips> = Vec::new();
    let mut i: usize = 0;
    proof {
        assert(out.deep_view() =~= groups_for_keys(kv.take(0), sv, rs));
    }
    while i < keys.len()
        invariant
            i <= keys@.len(),
            sv == stop_times.deep_view(),
            rs == requested.deep_view(),
            kv == keys.deep_view(),
            kv.len() == keys@.len(),
            out.deep_view() == groups_for_keys(kv.take(i as int), sv, rs),
        decreases keys@.len() - i,
    {
        let k = &keys[i];
        proof {
            assert(k.deep_view() == kv[i as int]);
            assert(kv.take(i as int + 1).drop_last() =~= kv.take(i as int));
            assert(kv.take(i as int + 1).last() == kv[i as int]);
        }
        let wanted = vec_contains_str(requested, k.as_str());
        if wanted {
            let trips = collect_trips(stop_times, k);
            if trips.len() > 0 {
                let group = RouteTrips { route: k.clone(), trips };
                proof {
                    assert(group.deep_view() =~= RouteTripsView {
                        route: kv[i as int],
                        trips: trips_for_route(sv, kv[i as int]),
                    });
                }
                let ghost prev_dv = out.deep_view();
                out.push(group);
                proof {
                    assert(out.deep_view() =~= prev_dv.push(group.deep_view()));
                }
            } else {
                proof {
                    assert(trips_for_route(sv, kv[i as int]).len() == 0);
                }
            }
        }
        i = i + 1;
    }
    proof {
        assert(kv.take(i as int) =~= kv);
        lemma_groups_routes(kv, sv, rs);
        lemma_groups_trips(kv, sv, rs);
        assert forall|g: int, t: int|
            0 <= g < out.deep_view().len() && 0 <= t < out.deep_view()[g].trips.len()
                implies trip_has_source(
            sv,
            out.deep_view()[g].route,
            #[trigger] out.deep_view()[g].trips[t],
        ) by {
            lemma_trips_source(sv, out.deep_view()[g].route);
            assert(out.deep_view()[g].trips == trips_for_route(sv, out.deep_view()[g].route));
        }
    }
    out
}


/// The stop serves the requested direction: its identifier ends with
/// the direction's letter.
pub open spec fn matches_direction(s: StopView, d: Direction) -> bool {
    ends_with_char(s.id, d.spec_suffix())
}

/// The stops serving the requested direction, upstream order kept.
pub open spec fn dir_stops(stops: Seq<StopView>, d: Direction) -> Seq<StopView>
    decreases stops.len(),
{
    if stops.len() == 0 {
        Seq::empty()
    } else {
        let rest = dir_stops(stops.drop_last(), d);
        if matches_direction(stops.last(), d) {
            rest.push(stops.last())
        } else {
            rest
        }
    }
}

/// The stop carries everything the answer needs: a computed distance
/// and a name.
pub open spec fn stop_ok(s: StopView) -> bool {
    s.distance is Some && s.name is Some
}

/// Every stop serving the direction is complete; only then can an
/// answer be produced.
pub open spec fn dir_all_ok(stops: Seq<StopView>, d: Direction) -> bool {
    forall|i: int|
        0 <= i < stops.len() && matches_direction(stops[i], d) ==> stop_ok(stops[i])
}

/// The answer entry of one complete stop.
pub open spec fn entry_of(s: StopView, rs: Seq<Seq<char>>) -> StopRouteTripsView {
    StopRouteTripsView {
        stop: StopInfoView { stop_id: s.id, name: s.name.unwrap(), distance: s.distance.unwrap() },
        route_trips: stop_route_groups(s.stop_times, rs),
    }
}

/// Entries of the direction's stops that kept at least one route group,
/// upstream order, not yet sorted by distance.
pub open spec fn pre_entries(stops: Seq<StopView>, rs: Seq<Seq<char>>) -> Seq<StopRouteTripsView>
    decreases stops.len(),
{
    if stops.len() == 0 {
        Seq::empty()
    } else {
        let rest = pre_entries(stops.drop_last(), rs);
        if stop_route_groups(stops.last().stop_times, rs).len() > 0 {
            rest.push(entry_of(stops.last(), rs))
        } else {
            rest
        }
    }
}

/// Insert an entry into a list sorted by distance, after any entry at
/// the same distance, so that ties keep their earlier order.
pub open spec fn insert_dist(x: StopRouteTripsView, s: Seq<StopRouteTripsView>) -> Seq<
    StopRouteTripsView,
>
    decreases s.len(),
{
    if s.len() == 0 {
        seq![x]
    } else if s.last().stop.distance <= x.stop.distance {
        s.push(x)
    } else {
        insert_dist(x, s.drop_last()).push(s.last())
    }
}

/// The entries arranged by ascending distance through stable insertion.
pub open spec fn sort_dist(s: Seq<StopRouteTripsView>) -> Seq<StopRouteTripsView>
    decreases s.len(),
{
    if s.len() == 0 {
        Seq::empty()
    } else {
        insert_dist(s.last(), sort_dist(s.drop_last()))
    }
}

/// The entries read in non-decreasing distance order.
pub open spec fn sorted_by_distance(s: Seq<StopRouteTripsView>) -> bool {
    forall|i: int, j: int| 0 <= i <= j < s.len() ==> s[i].stop.distance <= s[j].stop.distance
}

/// The whole nearby-train-times answer for complete data.
pub open spec fn nearby_spec(stops: Seq<StopView>, rs: Seq<Seq<char>>, d: Direction) -> Seq<
    StopRouteTripsView,
> {
    sort_dist(pre_entries(dir_stops(stops, d), rs))
}

/// How an integrity failure names the stop that caused it.
pub open spec fn nearby_err_matches(
    r: Result<Vec<StopRouteTrips>, IntegrityError>,
    s: StopView,
) -> bool {
    match r {
        Err(IntegrityError::MissingCoordinate(x)) => s.distance is None && x@ == s.id,
        Err(IntegrityError::MissingStopName(x)) => s.distance is Some && s.name is None && x@
            == s.id,
        _ => false,
    }
}

/// Inserting keeps membership: the result holds exactly the old entries
/// and the new one.
proof fn lemma_insert_dist_contains(x: StopRouteTripsView, s: Seq<StopRouteTripsView>, y: StopRouteTripsView)
    ensures
        insert_dist(x, s).contains(y) <==> (s.contains(y) || y == x),
    decreases s.len(),
{
    if s.len() == 0 {
        assert(seq![x][0] == x);
        if insert_dist(x, s).contains(y) {
            let i = choose|i: int| 0 <= i < seq![x].len() && seq![x][i] == y;
            assert(y == x);
        }
        if y == x {
            assert(seq![x][0] == y);
        }
        assert(!s.contains(y));
    } else if s.last().stop.distance <= x.stop.distance {
        if s.push(x).contains(y) {
            let i = choose|i: int| 0 <= i < s.push(x).len() && s.push(x)[i] == y;
            if i < s.len() {
                assert(s[i] == y);
            } else {
                assert(y == x);
            }
        }
        if s.contains(y) {
            let i = choose|i: int| 0 <= i < s.len() && s[i] == y;
            assert(s.push(x)[i] == y);
        }
        if y == x {
            assert(s.push(x)[s.len() as int] == y);
        }
    } else {
        lemma_insert_dist_contains(x, s.drop_last(), y);
        let rest = insert_dist(x, s.drop_last());
        if rest.push(s.last()).contains(y) {
            let i = choose|i: int| 0 <= i < rest.push(s.last()).len() && rest.push(s.last())[i] == y;
            if i < rest.len() {
                assert(rest[i] == y);
                if s.drop_last().contains(y) {
                    let m = choose|m: int| 0 <= m < s.drop_last().len() && s.drop_last()[m] == y;
                    assert(s[m] == y);
                }
            } else {
                assert(y == s.last());
                assert(s[s.len() - 1] == y);
            }
        }
        if s.contains(y) {
            let i = choose|i: int| 0 <= i < s.len() && s[i] == y;
            if i < s.len() - 1 {
                assert(s.drop_last()[i] == y);
                let m = choose|m: int| 0 <= m < rest.len() && rest[m] == y;
                assert(rest.push(s.last())[m] == y);
            } else {
                assert(y == s.last());
                assert(rest.push(s.last())[rest.len() as int] == y);
            }
        }
        if y == x {
            let m = choose|m: int| 0 <= m < rest.len() && rest[m] == y;
            assert(rest.push(s.last())[m] == y);
        }
    }
}

/// Inserting into a distance-sorted list keeps it sorted.
proof fn lemma_insert_dist_sorted(x: StopRouteTripsView, s: Seq<StopRouteTripsView>)
    requires
        sorted_by_distance(s),
    ensures
        sorted_by_distance(insert_dist(x, s)),
    decreases s.len(),
{
    if s.len() == 0 {
    } else if s.last().stop.distance <= x.stop.distance {
        assert forall|i: int, j: int| 0 <= i <= j < s.push(x).len() implies s.push(x)[i].stop.distance
            <= s.push(x)[j].stop.distance by {
            if j < s.len() {
                assert(s.push(x)[i] == s[i]);
                assert(s.push(x)[j] == s[j]);
            } else if i < s.len() {
                assert(s.push(x)[i] == s[i]);
                assert(s[i].stop.distance <= s[s.len() - 1].stop.distance);
            }
        }
    } else {
        assert(sorted_by_distance(s.drop_last())) by {
            assert forall|i: int, j: int| 0 <= i <= j < s.drop_last().len() implies s.drop_last()[i].stop.distance
                <= s.drop_last()[j].stop.distance by {
                assert(s.drop_last()[i] == s[i]);
                assert(s.drop_last()[j] == s[j]);
            }
        }
        lemma_insert_dist_sorted(x, s.drop_last());
        let rest = insert_dist(x, s.drop_last());
        assert forall|i: int| 0 <= i < rest.len() implies rest[i].stop.distance
            <= s.last().stop.distance by {
            assert(rest.contains(rest[i]));
            lemma_insert_dist_contains(x, s.drop_last(), rest[i]);
            if s.drop_last().contains(rest[i]) {
                let m = choose|m: int|
                    0 <= m < s.drop_last().len() && s.drop_last()[m] == rest[i];
                assert(s[m] == rest[i]);
                assert(s[m].stop.distance <= s[s.len() - 1].stop.distance);
            } else {
                assert(rest[i] == x);
            }
        }
        assert forall|i: int, j: int| 0 <= i <= j < rest.push(s.last()).len() implies rest.push(
            s.last(),
        )[i].stop.distance <= rest.push(s.last())[j].stop.distance by {
            if j < rest.len() {
                assert(rest.push(s.last())[i] == rest[i]);
                assert(rest.push(s.last())[j] == rest[j]);
            } else if i < rest.len() {
                assert(rest.push(s.last())[i] == rest[i]);
            }
        }
    }
}

/// Stable insertion sort by distance yields a sorted list with exactly
/// the same entries.
proof fn lemma_sort_dist_sorted(s: Seq<StopRouteTripsView>)
    ensures
        sorted_by_distance(sort_dist(s)),
        forall|y: StopRouteTripsView| #[trigger] sort_dist(s).contains(y) <==> s.contains(y),
    decreases s.len(),
{
    if s.len() == 0 {
        assert forall|y: StopRouteTripsView| #[trigger] sort_dist(s).contains(y) <==> s.contains(y) by {
            assert(!sort_dist(s).contains(y));
            assert(!s.contains(y));
        }
    } else {
        lemma_sort_dist_sorted(s.drop_last());
        lemma_insert_dist_sorted(s.last(), sort_dist(s.drop_last()));
        assert forall|y: StopRouteTripsView| #[trigger] sort_dist(s).contains(y) <==> s.contains(y) by {
            lemma_insert_dist_contains(s.last(), sort_dist(s.drop_last()), y);
            if sort_dist(s).contains(y) {
                if sort_dist(s.drop_last()).contains(y) {
                    assert(s.drop_last().contains(y));
                    let m = choose|m: int|
                        0 <= m < s.drop_last().len() && s.drop_last()[m] == y;
                    assert(s[m] == y);
                } else {
                    assert(y == s.last());
                    assert(s[s.len() - 1] == y);
                }
            }
            if s.contains(y) {
                let i = choose|i: int| 0 <= i < s.len() && s[i] == y;
                if i < s.len() - 1 {
                    assert(s.drop_last()[i] == y);
                    assert(sort_dist(s.drop_last()).contains(y));
                } else {
                    assert(y == s.last());
                }
            }
        }
    }
}

/// Every stop the direction filter keeps serves that direction.
proof fn lemma_dir_stops_match(stops: Seq<StopView>, d: Direction)
    ensures
        forall|i: int|
            0 <= i < dir_stops(stops, d).len() ==> matches_direction(
                #[trigger] dir_stops(stops, d)[i],
                d,
            ),
    decreases stops.len(),
{
    if stops.len() > 0 {
        lemma_dir_stops_match(stops.drop_last(), d);
        let rest = dir_stops(stops.drop_last(), d);
        let cur = dir_stops(stops, d);
        assert forall|i: int| 0 <= i < cur.len() implies matches_direction(cur[i], d) by {
            if matches_direction(stops.last(), d) {
                assert(cur == rest.push(stops.last()));
                if i < rest.len() {
                    assert(cur[i] == rest[i]);
                } else {
                    assert(cur[i] == stops.last());
                }
            } else {
                assert(cur == rest);
            }
        }
    }
}

/// Every answer entry stems from one of the filtered stops.
proof fn lemma_pre_entries_source(stops: Seq<StopView>, rs: Seq<Seq<char>>)
    ensures
        forall|e: int|
            0 <= e < pre_entries(stops, rs).len() ==> exists|m: int|
                0 <= m < stops.len() && #[trigger] pre_entries(stops, rs)[e] == entry_of(
                    stops[m],
                    rs,
                ),
    decreases stops.len(),
{
    if stops.len() > 0 {
        lemma_pre_entries_source(stops.drop_last(), rs);
        let rest = pre_entries(stops.drop_last(), rs);
        let cur = pre_entries(stops, rs);
        assert forall|e: int| 0 <= e < cur.len() implies exists|m: int|
            0 <= m < stops.len() && #[trigger] cur[e] == entry_of(stops[m], rs) by {
            if stop_route_groups(stops.last().stop_times, rs).len() > 0 {
                assert(cur == rest.push(entry_of(stops.last(), rs)));
                if e < rest.len() {
                    assert(cur[e] == rest[e]);
                    let m = choose|m: int|
                        0 <= m < stops.drop_last().len() && rest[e] == entry_of(
                            stops.drop_last()[m],
                            rs,
                        );
                    assert(stops[m] == stops.drop_last()[m]);
                    assert(cur[e] == entry_of(stops[m], rs));
                } else {
                    let w = stops.len() - 1;
                    assert(stops[w] == stops.last());
                    assert(cur[e] == entry_of(stops[w], rs));
                }
            } else {
                assert(cur == rest);
                let m = choose|m: int|
                    0 <= m < stops.drop_last().len() && cur[e] == entry_of(
                        stops.drop_last()[m],
                        rs,
                    );
                assert(stops[m] == stops.drop_last()[m]);
                assert(cur[e] == entry_of(stops[m], rs));
            }
        }
    }
}

/// Every route group names a requested route.
proof fn lemma_groups_routes(keys: Seq<Seq<char>>, sts: Seq<StopTimeView>, rs: Seq<Seq<char>>)
    ensures
        forall|g: int|
            0 <= g < groups_for_keys(keys, sts, rs).len() ==> contains_str(
                rs,
                #[trigger] groups_for_keys(keys, sts, rs)[g].route,
            ),
    decreases keys.len(),
{
    if keys.len() > 0 {
        lemma_groups_routes(keys.drop_last(), sts, rs);
        let rest = groups_for_keys(keys.drop_last(), sts, rs);
        let cur = groups_for_keys(keys, sts, rs);
        let k = keys.last();
        assert forall|g: int| 0 <= g < cur.len() implies contains_str(rs, cur[g].route) by {
            if contains_str(rs, k) && trips_for_route(sts, k).len() > 0 {
                assert(cur == rest.push(RouteTripsView { route: k, trips: trips_for_route(sts, k) }));
                if g < rest.len() {
                    assert(cur[g] == rest[g]);
                } else {
                    assert(cur[g].route == k);
                }
            } else {
                assert(cur == rest);
            }
        }
    }
}

/// Every group carries the calls of its own route, and none is empty.
proof fn lemma_groups_trips(keys: Seq<Seq<char>>, sts: Seq<StopTimeView>, rs: Seq<Seq<char>>)
    ensures
        forall|g: int|
            0 <= g < groups_for_keys(keys, sts, rs).len() ==> (#[trigger] groups_for_keys(
                keys,
                sts,
                rs,
            )[g]).trips == trips_for_route(sts, groups_for_keys(keys, sts, rs)[g].route)
                && groups_for_keys(keys, sts, rs)[g].trips.len() > 0,
    decreases keys.len(),
{
    if keys.len() > 0 {
        lemma_groups_trips(keys.drop_last(), sts, rs);
        let rest = groups_for_keys(keys.drop_last(), sts, rs);
        let cur = groups_for_keys(keys, sts, rs);
        let k = keys.last();
        assert forall|g: int| 0 <= g < cur.len() implies cur[g].trips == trips_for_route(
            sts,
            cur[g].route,
        ) && cur[g].trips.len() > 0 by {
            if contains_str(rs, k) && trips_for_route(sts, k).len() > 0 {
                assert(cur == rest.push(RouteTripsView { route: k, trips: trips_for_route(sts, k) }));
                if g < rest.len() {
                    assert(cur[g] == rest[g]);
                } else {
                    assert(cur[g].route == k);
                }
            } else {
                assert(cur == rest);
            }
        }
    }
}

/// The call `t` stems from some record of `sts` that belongs to route
/// `k` and has a usable time.
pub open spec fn trip_has_source(sts: Seq<StopTimeView>, k: Seq<char>, t: TripTimeView) -> bool {
    exists|m: int|
        0 <= m < sts.len() && usable_time(#[trigger] sts[m]) is Some && key_of(sts[m]) == Some(k)
            && t == (TripTimeView {
            trip_id: sts[m].trip.unwrap().id,
            arrival: usable_time(sts[m]).unwrap(),
        })
}

/// A record with a usable time carries an arrival or a departure: a
/// record lacking both can never appear in any output trip list.
pub proof fn lemma_usable_time_needs_a_time(st: StopTimeView)
    ensures
        usable_time(st) is Some ==> st.arrival is Some || st.departure is Some,
{
}

/// Every emitted call stems from a record with a usable time: a record
/// lacking both arrival and departure can never appear in a trip list.
proof fn lemma_trips_source(sts: Seq<StopTimeView>, k: Seq<char>)
    ensures
        forall|t: int|
            0 <= t < trips_for_route(sts, k).len() ==> trip_has_source(
                sts,
                k,
                #[trigger] trips_for_route(sts, k)[t],
            ),
    decreases sts.len(),
{
    if sts.len() > 0 {
        lemma_trips_source(sts.drop_last(), k);
        let rest = trips_for_route(sts.drop_last(), k);
        let cur = trips_for_route(sts, k);
        let st = sts.last();
        assert forall|t: int| 0 <= t < cur.len() implies trip_has_source(sts, k, cur[t]) by {
            if key_of(st) == Some(k) && usable_time(st) is Some {
                assert(cur == rest.push(TripTimeView {
                    trip_id: st.trip.unwrap().id,
                    arrival: usable_time(st).unwrap(),
                }));
                if t < rest.len() {
                    assert(cur[t] == rest[t]);
                    assert(trip_has_source(sts.drop_last(), k, rest[t]));
                    let m = choose|m: int|
                        0 <= m < sts.drop_last().len() && usable_time(
                            #[trigger] sts.drop_last()[m],
                        ) is Some && key_of(sts.drop_last()[m]) == Some(k) && rest[t]
                            == (TripTimeView {
                            trip_id: sts.drop_last()[m].trip.unwrap().id,
                            arrival: usable_time(sts.drop_last()[m]).unwrap(),
                        });
                    assert(sts[m] == sts.drop_last()[m]);
                    assert(usable_time(sts[m]) is Some);
                } else {
                    let w = sts.len() - 1;
                    assert(sts[w] == st);
                    assert(cur[t] == (TripTimeView {
                        trip_id: sts[w].trip.unwrap().id,
                        arrival: usable_time(sts[w]).unwrap(),
                    }));
                    assert(usable_time(sts[w]) is Some);
                }
            } else {
                assert(cur == rest);
                assert(trip_has_source(sts.drop_last(), k, rest[t]));
                let m = choose|m: int|
                    0 <= m < sts.drop_last().len() && usable_time(
                        #[trigger] sts.drop_last()[m],
                    ) is Some && key_of(sts.drop_last()[m]) == Some(k) && cur[t] == (TripTimeView {
                        trip_id: sts.drop_last()[m].trip.unwrap().id,
                        arrival: usable_time(sts.drop_last()[m]).unwrap(),
                    });
                assert(sts[m] == sts.drop_last()[m]);
                assert(usable_time(sts[m]) is Some);
            }
        }
    }
}

/// Insert one entry into an already distance-sorted vector, after any
/// tie.
fn insert_sorted_entry(v: &mut Vec<StopRouteTrips>, x: StopRouteTrips)
    ensures
        final(v).deep_view() == insert_dist(x.deep_view(), old(v).deep_view()),
{
    let ghost orig = v.deep_view();
    let ghost xv = x.deep_view();
    let mut j: usize = v.len();
    let mut done = false;
    proof {
        assert(orig.skip(j as int) =~= Seq::<StopRouteTripsView>::empty());
        assert(orig.take(j as int) =~= orig);
        assert(insert_dist(xv, orig.take(j as int)) + orig.skip(j as int) =~= insert_dist(xv, orig));
    }
    while j > 0 && !done
        invariant
            j <= orig.len(),
            orig == v.deep_view(),
            xv == x.deep_view(),
            orig.len() == v@.len(),
            insert_dist(xv, orig) == insert_dist(xv, orig.take(j as int)) + orig.skip(j as int),
            done ==> j > 0 && orig[j as int - 1].stop.distance <= xv.stop.distance,
        decreases j + (if done { 0int } else { 1int }),
    {
        proof {
            assert(v.deep_view()[j as int - 1] == v@[j as int - 1].deep_view());
        }
        let le = v[j - 1].stop.distance <= x.stop.distance;
        if le {
            done = true;
        } else {
            proof {
                assert(orig.take(j as int).last() == orig[j as int - 1]);
                assert(orig.take(j as int).drop_last() =~= orig.take(j as int - 1));
                assert(insert_dist(xv, orig.take(j as int)) == insert_dist(
                    xv,
                    orig.take(j as int - 1),
                ).push(orig[j as int - 1]));
                assert(insert_dist(xv, orig.take(j as int - 1)).push(orig[j as int - 1]) + orig.skip(
                    j as int,
                ) =~= insert_dist(xv, orig.take(j as int - 1)) + orig.skip(j as int - 1));
            }
            j = j - 1;
        }
    }
    proof {
        if j > 0 {
            assert(orig.take(j as int).last() == orig[j as int - 1]);
            assert(insert_dist(xv, orig.take(j as int)) == orig.take(j as int).push(xv));
        } else {
            assert(orig.take(0).len() == 0);
            assert(insert_dist(xv, orig.take(j as int)) == orig.take(j as int).push(xv));
        }
    }
    let ghost prev_dv = v.deep_view();
    v.insert(j, x);
    proof {
        assert(v.deep_view() =~= prev_dv.insert(j as int, xv));
        assert(prev_dv.insert(j as int, xv) =~= orig.take(j as int).push(xv) + orig.skip(j as int));
        assert(v.deep_view() =~= insert_dist(xv, orig));
    }
}

/// Arrange the entries by ascending distance; entries at the same
/// distance keep their earlier order.
fn sort_by_distance(entries: Vec<StopRouteTrips>) -> (r: Vec<StopRouteTrips>)
    ensures
        r.deep_view() == sort_dist(entries.deep_view()),
{
    let ghost orig = entries.deep_view();
    let total: usize = entries.len();
    let mut rest = entries;
    let mut out: Vec<StopRouteTrips> = Vec::new();
    let mut n: usize = 0;
    proof {
        assert(orig.skip(0) =~= orig);
        assert(out.deep_view() =~= sort_dist(orig.take(0)));
    }
    while rest.len() > 0
        invariant
            n <= total,
            total == orig.len(),
            n + rest@.len() == total,
            rest.deep_view() == orig.skip(n as int),
            out.deep_view() == sort_dist(orig.take(n as int)),
        decreases rest@.len(),
    {
        let x = rest.remove(0);
        proof {
            assert(rest.deep_view() =~= orig.skip(n as int).remove(0));
            assert(orig.skip(n as int).remove(0) =~= orig.skip(n as int + 1));
            assert(x.deep_view() == orig.skip(n as int)[0]);
            assert(orig.skip(n as int)[0] == orig[n as int]);
            assert(orig.take(n as int + 1).drop_last() =~= orig.take(n as int));
            assert(orig.take(n as int + 1).last() == orig[n as int]);
        }
        insert_sorted_entry(&mut out, x);
        n = n + 1;
    }
    proof {
        assert(orig.take(n as int) =~= orig);
    }
    out
}

/// The nearby-train-times answer: stops serving the direction, their
/// calls grouped by requested route with only usable times kept, empty
/// groups and stops dropped, ordered by ascending distance.  The whole
/// request fails when a retained stop lacks its distance or its name.
pub fn nearby_train_times(stops: &Vec<Stop>, requested: &Vec<String>, direction: Direction) -> (r:
    Result<Vec<StopRouteTrips>, IntegrityError>)
    ensures
        r is Ok <==> dir_all_ok(stops.deep_view(), direction),
        r is Ok ==> r.unwrap().deep_view() == nearby_spec(
            stops.deep_view(),
            requested.deep_view(),
            direction,
        ),
        r is Ok ==> sorted_by_distance(r.unwrap().deep_view()),
        r is Ok ==> forall|e: int|
            0 <= e < r.unwrap().deep_view().len() ==> ends_with_char(
                (#[trigger] r.unwrap().deep_view()[e]).stop.stop_id,
                direction.spec_suffix(),
            ),
        r is Ok ==> forall|e: int, g: int|
            0 <= e < r.unwrap().deep_view().len() && 0 <= g < r.unwrap().deep_view()[e].route_trips.len()
                ==> contains_str(
                requested.deep_view(),
                (#[trigger] r.unwrap().deep_view()[e].route_trips[g]).route,
            ),
        r is Err ==> exists|i: int|
            0 <= i < stops.deep_view().len() && matches_direction(
                #[trigger] stops.deep_view()[i],
                direction,
            ) && !stop_ok(stops.deep_view()[i]) && (forall|j: int|
                0 <= j < i && matches_direction(stops.deep_view()[j], direction) ==> stop_ok(
                    stops.deep_view()[j],
                )) && nearby_err_matches(r, stops.deep_view()[i]),
{
    let ghost sv = stops.deep_view();
    let ghost rs = requested.deep_view();
    let mut entries: Vec<StopRouteTrips> = Vec::new();
    let mut i: usize = 0;
    proof {
        assert(entries.deep_view() =~= pre_entries(dir_stops(sv.take(0), direction), rs));
    }
    while i < stops.len()
        invariant
            i <= stops@.len(),
            sv == stops.deep_view(),
            rs == requested.deep_view(),
            sv.len() == stops@.len(),
            forall|j: int|
                0 <= j < i && matches_direction(sv[j], direction) ==> stop_ok(sv[j]),
            entries.deep_view() == pre_entries(dir_stops(sv.take(i as int), direction), rs),
        decreases stops@.len() - i,
    {
        let s = &stops[i];
        proof {
            assert(s.deep_view() == sv[i as int]);
            assert(sv.take(i as int + 1).drop_last() =~= sv.take(i as int));
            assert(sv.take(i as int + 1).last() == sv[i as int]);
        }
        let m = ends_with(s.id.as_str(), direction.suffix());
        if m {
            proof {
                assert(matches_direction(sv[i as int], direction));
                assert(dir_stops(sv.take(i as int + 1), direction) =~= dir_stops(
                    sv.take(i as int),
                    direction,
                ).push(sv[i as int]));
            }
            let dist = match &s.distance {
                Some(d) => *d,
                None => {
                    proof {
                        assert(!stop_ok(sv[i as int]));
                    }
                    return Err(IntegrityError::MissingCoordinate(s.id.clone()));
                },
            };
            let name = match &s.name {
                Some(nm) => nm.clone(),
                None => {
                    proof {
                        assert(!stop_ok(sv[i as int]));
                    }
                    return Err(IntegrityError::MissingStopName(s.id.clone()));
                },
            };
            let groups = trips_by_route_for_stop(&s.stop_times, requested);
            proof {
                assert((dir_stops(sv.take(i as int), direction).push(sv[i as int])).drop_last()
                    =~= dir_stops(sv.take(i as int), direction));
                assert((dir_stops(sv.take(i as int), direction).push(sv[i as int])).last() == sv[i as int]);
            }
            if groups.len() > 0 {
                let entry = StopRouteTrips {
                    stop: StopInfo { stop_id: s.id.clone(), name, distance: dist },
                    route_trips: groups,
                };
                proof {
                    assert(entry.deep_view() =~= entry_of(sv[i as int], rs));
                }
                let ghost prev_dv = entries.deep_view();
                entries.push(entry);
                proof {
                    assert(entries.deep_view() =~= prev_dv.push(entry.deep_view()));
                }
            } else {
                proof {
                    assert(stop_route_groups(sv[i as int].stop_times, rs).len() == 0);
                }
            }
        } else {
            proof {
                assert(!matches_direction(sv[i as int], direction));
                assert(dir_stops(sv.take(i as int + 1), direction) =~= dir_stops(
                    sv.take(i as int),
                    direction,
                ));
            }
        }
        i = i + 1;
    }
    proof {
        assert(sv.take(i as int) =~= sv);
    }
    let sorted = sort_by_distance(entries);
    proof {
        let pe = pre_entries(dir_stops(sv, direction), rs);
        lemma_sort_dist_sorted(pe);
        lemma_dir_stops_match(sv, direction);
        lemma_pre_entries_source(dir_stops(sv, direction), rs);
        assert forall|e: int| 0 <= e < sorted.deep_view().len() implies ends_with_char(
            (#[trigger] sorted.deep_view()[e]).stop.stop_id,
            direction.spec_suffix(),
        ) && (forall|g: int|
            0 <= g < sorted.deep_view()[e].route_trips.len() ==> contains_str(
                rs,
                (#[trigger] sorted.deep_view()[e].route_trips[g]).route,
            )) by {
            assert(sorted.deep_view().contains(sorted.deep_view()[e]));
            assert(pe.contains(sorted.deep_view()[e]));
            let m = choose|m: int|
                0 <= m < dir_stops(sv, direction).len() && sorted.deep_view()[e] == entry_of(
                    dir_stops(sv, direction)[m],
                    rs,
                );
            assert(matches_direction(dir_stops(sv, direction)[m], direction));
            lemma_groups_routes(
                sort_keys(route_keys(dir_stops(sv, direction)[m].stop_times)),
                dir_stops(sv, direction)[m].stop_times,
                rs,
            );
        }
    }
    Ok(sorted)
}

} // verus!

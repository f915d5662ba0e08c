//! Dispatch of one resolver invocation: recognize the requested field
//! name, and read from the caller's selection text whether the running
//! flag was asked for.

use crate::GraphQLError;
use crate::text::str_eq;
use vstd::prelude::*;
use vstd::string::*;

verus! {

/// The two operations this resolver knows.
#[derive(Debug, Clone, Copy, PartialEq, Eq, Structural)]
pub enum Operation {
    NearbyTrainTimes,
    RouteStatuses,
}

/// Map a field name to its operation; any other name is an unknown
/// operation, reported with the name itself.
pub fn plan_operation(field_name: &str) -> (r: Result<Operation, GraphQLError>)
    ensures
        field_name@ == "nearbyTrainTimes"@ ==> r == Ok::<Operation, GraphQLError>(
            Operation::NearbyTrainTimes,
        ),
        (field_name@ != "nearbyTrainTimes"@ && field_name@ == "routeStatuses"@) ==> r
            == Ok::<Operation, GraphQLError>(Operation::RouteStatuses),
        (field_name@ != "nearbyTrainTimes"@ && field_name@ != "routeStatuses"@) ==> (r matches Err(
            GraphQLError::UnknownFieldName(x),
        ) && x@ == field_name@),
{
    if str_eq(field_name, "nearbyTrainTimes") {
        Ok(Operation::NearbyTrainTimes)
    } else if str_eq(field_name, "routeStatuses") {
        Ok(Operation::RouteStatuses)
    } else {
        Err(GraphQLError::UnknownFieldName(field_name.to_owned()))
    }
}

/// The word whose occurrence in the selection text asks for the running
/// flag.
pub open spec fn running_word() -> Seq<char> {
    seq!['r', 'u', 'n', 'n', 'i', 'n', 'g']
}

/// The selection text mentions the running flag somewhere.
pub open spec fn mentions_running(s: Seq<char>) -> bool {
    exists|i: int| 0 <= i <= s.len() - 7 && #[trigger] s.subrange(i, i + 7) == running_word()
}

/// The seven characters at `i` spell the running word.
fn running_at(s: &str, i: usize) -> (b: bool)
    requires
        s@.len() <= usize::MAX,
        i + 7 <= s@.len(),
    ensures
        b == (s@.subrange(i as int, i as int + 7) == running_word()),
{
    let c0 = s.get_char(i);
    let c1 = s.get_char(i + 1);
    let c2 = s.get_char(i + 2);
    let c3 = s.get_char(i + 3);
    let c4 = s.get_char(i + 4);
    let c5 = s.get_char(i + 5);
    let c6 = s.get_char(i + 6);
    let hit = c0 == 'r' && c1 == 'u' && c2 == 'n' && c3 == 'n' && c4 == 'i' && c5 == 'n' && c6
        == 'g';
    proof {
        let sub = s@.subrange(i as int, i as int + 7);
        assert(sub.len() == 7);
        assert(sub[0] == s@[i as int]);
        assert(sub[1] == s@[i as int + 1]);
        assert(sub[2] == s@[i as int + 2]);
        assert(sub[3] == s@[i as int + 3]);
        assert(sub[4] == s@[i as int + 4]);
        assert(sub[5] == s@[i as int + 5]);
        assert(sub[6] == s@[i as int + 6]);
        if hit {
            assert(sub =~= running_word());
        } else {
            assert(sub != running_word());
        }
    }
    hit
}

/// Whether the caller's selection text asks for the running flag: the
/// running word occurs somewhere in it.
pub fn selection_includes_running(selection: &str) -> (b: bool)
    ensures
        b == mentions_running(selection@),
{
    let n: usize = selection.unicode_len();
    if n < 7 {
        return false;
    }
    let mut i: usize = 0;
    while i <= n - 7
        invariant
            n == selection@.len(),
            7 <= n,
            i <= n - 6,
            forall|m: int|
                0 <= m < i ==> #[trigger] selection@.subrange(m, m + 7) != running_word(),
        decreases n - i,
    {
        if running_at(selection, i) {
            assert(selection@.subrange(i as int, i as int + 7) == running_word());
            return true;
        }
        i = i + 1;
    }
    false
}

} // verus!

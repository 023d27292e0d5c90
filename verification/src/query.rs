//! The query service: composes catalog, log store and freshness evaluator
//! to answer single-server and fleet-wide status questions. Queries must
//! hold up for servers that never reported, stopped reporting, or reported
//! out of order; "no samples" is an ordinary state, never a failure.

use vstd::prelude::*;

use crate::freshness::{current_rate, is_online, spec_current_rate, spec_is_online};
use crate::models::{copy_server, servers_view, DstatServer, ServerModel};
use crate::store::{latest_of, LogStore};
use crate::text::str_eq;

verus! {

/// The dashboard asked for a server the catalog does not know. The caller
/// answers it by redirecting to the default view.
#[derive(Debug)]
pub struct NotFound;

/// The first catalog entry carrying `name`, in the catalog's stored order.
pub open spec fn first_with_name(catalog: Seq<ServerModel>, name: Seq<char>) -> Option<ServerModel>
    decreases catalog.len(),
{
    if catalog.len() == 0 {
        Option::None
    } else if catalog[0].server_name == name {
        Option::Some(catalog[0])
    } else {
        first_with_name(catalog.subrange(1, catalog.len() as int), name)
    }
}

/// The current rate of server `name` at time `now`: its most recent
/// sample's rate while that sample is fresh, zero otherwise. Zero is also
/// the answer for a server that is unknown or silent — indistinguishable,
/// by design, from one that is online reporting zero load.
pub fn rate_for(store: &LogStore, name: &str, now: i32) -> (rate: i32)
    requires
        store.wf(),
    ensures
        rate as int == spec_current_rate(latest_of(store@, name@), now as int),
{
    match store.latest_for(name) {
        Option::None => current_rate(Option::None, now),
        Option::Some(l) => current_rate(Option::Some(&l), now),
    }
}

/// The catalog entry the dashboard should show: the first entry of the
/// catalog snapshot when none is requested by name, else the first entry
/// matching the requested name. `NotFound` exactly when the catalog is
/// empty or no entry matches.
#[verifier::loop_isolation(false)]
pub fn dashboard_target(catalog: &Vec<DstatServer>, requested: Option<&str>) -> (result: Result<
    DstatServer,
    NotFound,
>)
    ensures
        match result {
            Ok(server) => match requested {
                Option::None => servers_view(catalog@).len() > 0 && server@ == servers_view(
                    catalog@,
                )[0],
                Option::Some(n) => first_with_name(servers_view(catalog@), n@) == Option::Some(
                    server@,
                ),
            },
            Err(e) => match requested {
                Option::None => servers_view(catalog@).len() == 0,
                Option::Some(n) => first_with_name(servers_view(catalog@), n@) is None,
            },
        },
{
    match requested {
        Option::None => {
            if catalog.len() == 0 {
                Err(NotFound)
            } else {
                Ok(copy_server(&catalog[0]))
            }
        },
        Option::Some(n) => {
            let ghost cv = servers_view(catalog@);
            let mut k: usize = 0;
            proof {
                assert(cv.subrange(0, cv.len() as int) =~= cv);
            }
            while k < catalog.len()
                invariant
                    k <= cv.len(),
                    first_with_name(cv, n@) == first_with_name(
                        cv.subrange(k as int, cv.len() as int),
                        n@,
                    ),
                decreases cv.len() - k,
            {
                let ghost suffix = cv.subrange(k as int, cv.len() as int);
                proof {
                    assert(suffix[0] == cv[k as int]);
                    assert(suffix.subrange(1, suffix.len() as int) =~= cv.subrange(
                        k as int + 1,
                        cv.len() as int,
                    ));
                }
                if str_eq(catalog[k].server_name.as_str(), n) {
                    return Ok(copy_server(&catalog[k]));
                }
                k = k + 1;
            }
            Err(NotFound)
        },
    }
}

/// One (server name, online) pair for every catalog entry, in catalog
/// order. A server with no samples is reported offline, not an error.
#[verifier::loop_isolation(false)]
pub fn fleet_status(catalog: &Vec<DstatServer>, store: &LogStore, now: i32) -> (statuses: Vec<
    (String, bool),
>)
    requires
        store.wf(),
    ensures
        statuses@.len() == catalog@.len(),
        forall|k: int| 0 <= k < catalog@.len() ==> (#[trigger] statuses@[k]).0@ == catalog@[k]@.server_name
            && statuses@[k].1 == spec_is_online(
            latest_of(store@, catalog@[k]@.server_name),
            now as int,
        ),
{
    let mut statuses: Vec<(String, bool)> = Vec::new();
    let mut k: usize = 0;
    while k < catalog.len()
        invariant
            k <= catalog@.len(),
            statuses@.len() == k,
            forall|j: int| 0 <= j < k ==> (#[trigger] statuses@[j]).0@ == catalog@[j]@.server_name
                && statuses@[j].1 == spec_is_online(
                latest_of(store@, catalog@[j]@.server_name),
                now as int,
            ),
        decreases catalog@.len() - k,
    {
        let latest = store.latest_for(catalog[k].server_name.as_str());
        let online = match &latest {
            Option::None => is_online(Option::None, now),
            Option::Some(l) => is_online(Option::Some(l), now),
        };
        statuses.push((catalog[k].server_name.clone(), online));
        k = k + 1;
    }
    statuses
}

} // verus!

//! The log store: an append-only table of throughput samples keyed by time,
//! held sorted by time, with bounded recent-window queries per server.
//!
//! The table's declared key is `time` alone, so two samples landing in the
//! same second collide — even from different servers. That is the store's
//! accepted precision limit, and [`LogStore::append`] reports it as a
//! [`StoreError::Conflict`] rather than overwriting.

use vstd::prelude::*;

use crate::models::{logs_view, DstatLog, SampleModel};
use crate::text::str_eq;

verus! {

/// What can go wrong inside the store.
#[derive(Debug)]
pub enum StoreError {
    /// A sample's `time` collides with a row already in the table.
    Conflict,
    /// An underlying storage failure. The in-memory table never raises it;
    /// a caller that wraps a durable engine surfaces that engine's failures
    /// under this variant.
    IO,
}

/// Rows are strictly ordered by time: the table's key.
pub open spec fn sorted_by_time(s: Seq<SampleModel>) -> bool {
    forall|i: int, j: int| 0 <= i < j < s.len() ==> s[i].time < s[j].time
}

/// Some row of `s` carries time `t`.
pub open spec fn has_time(s: Seq<SampleModel>, t: int) -> bool {
    exists|i: int| 0 <= i < s.len() && s[i].time == t
}

/// `s` with `x` placed before the first row whose time exceeds `x.time`.
pub open spec fn sorted_insert(s: Seq<SampleModel>, x: SampleModel) -> Seq<SampleModel>
    decreases s.len(),
{
    if s.len() == 0 {
        seq![x]
    } else if s.last().time < x.time {
        s.push(x)
    } else {
        sorted_insert(s.drop_last(), x).push(s.last())
    }
}

/// The rows of `s` that belong to `name`, most recent position first.
/// On a time-sorted log this is the recent window, newest sample first.
pub open spec fn matching_desc(s: Seq<SampleModel>, name: Seq<char>) -> Seq<SampleModel>
    decreases s.len(),
{
    if s.len() == 0 {
        Seq::empty()
    } else if s.last().server_name == name {
        seq![s.last()] + matching_desc(s.drop_last(), name)
    } else {
        matching_desc(s.drop_last(), name)
    }
}

/// The most recent sample of `name` in `s`, if it ever reported.
pub open spec fn latest_of(s: Seq<SampleModel>, name: Seq<char>) -> Option<SampleModel> {
    if matching_desc(s, name).len() == 0 {
        Option::None
    } else {
        Option::Some(matching_desc(s, name)[0])
    }
}

/// `s` itself when it has at most `n` rows, else its first `n` rows.
pub open spec fn take_up_to(s: Seq<SampleModel>, n: int) -> Seq<SampleModel> {
    if s.len() <= n {
        s
    } else {
        s.take(n)
    }
}

/// The append-only log of samples, held sorted by time.
pub struct LogStore {
    rows: Vec<DstatLog>,
}

impl View for LogStore {
    type V = Seq<SampleModel>;

    closed spec fn view(&self) -> Seq<SampleModel> {
        logs_view(self.rows@)
    }
}

/// Placing a row at the position found by scanning from the end is what
/// `sorted_insert` means, and keeps the log sorted.
proof fn lemma_sorted_insert_at(s: Seq<SampleModel>, x: SampleModel, i: int)
    requires
        sorted_by_time(s),
        0 <= i <= s.len(),
        forall|j: int| i <= j < s.len() ==> s[j].time > x.time,
        i > 0 ==> s[i - 1].time < x.time,
    ensures
        sorted_insert(s, x) == s.insert(i, x),
        sorted_by_time(s.insert(i, x)),
    decreases s.len(),
{
    s.insert_ensures(i, x);
    if i == s.len() {
        if s.len() == 0 {
            assert(sorted_insert(s, x) =~= s.insert(i, x));
        } else {
            assert(s.last().time == s[i - 1].time);
            assert(sorted_insert(s, x) == s.push(x));
            assert(s.push(x) =~= s.insert(i, x));
        }
    } else {
        assert(s.last().time > x.time);
        let d = s.drop_last();
        assert forall|a: int, b: int| 0 <= a < b < d.len() implies d[a].time < d[b].time by {
            assert(d[a] == s[a]);
            assert(d[b] == s[b]);
        }
        assert(forall|j: int| i <= j < d.len() ==> d[j].time == s[j].time);
        lemma_sorted_insert_at(d, x, i);
        d.insert_ensures(i, x);
        assert(sorted_insert(s, x) == sorted_insert(d, x).push(s.last()));
        assert(d.insert(i, x).push(s.last()) =~= s.insert(i, x)) by {
            assert forall|k: int| 0 <= k < s.len() + 1 implies d.insert(i, x).push(s.last())[k]
                == s.insert(i, x)[k] by {
                if k < i {
                    assert(d.insert(i, x)[k] == d[k]);
                    assert(s.insert(i, x)[k] == s[k]);
                } else if k == i {
                } else if k < s.len() {
                    assert(d.insert(i, x)[k] == d[k - 1]);
                    assert(s.insert(i, x)[k] == s[k - 1]);
                } else {
                    assert(s.insert(i, x)[k] == s[k - 1]);
                }
            }
        }
    }
    assert forall|a: int, b: int| 0 <= a < b < s.insert(i, x).len() implies s.insert(i, x)[a].time
        < s.insert(i, x)[b].time by {
        if b < i {
            assert(s.insert(i, x)[a] == s[a]);
            assert(s.insert(i, x)[b] == s[b]);
        } else if b == i {
            assert(s.insert(i, x)[a] == s[a]);
            assert(s[a].time <= s[i - 1].time);
        } else {
            assert(s.insert(i, x)[b] == s[b - 1]);
            assert(s[b - 1].time > x.time);
            if a < i {
                assert(s.insert(i, x)[a] == s[a]);
                if i > 0 {
                    assert(s[a].time <= s[i - 1].time);
                }
            } else if a == i {
            } else {
                assert(s.insert(i, x)[a] == s[a - 1]);
            }
        }
    }
}

/// Every row of the recent window carries the requested name and comes
/// from the log itself.
proof fn lemma_matching_desc_members(s: Seq<SampleModel>, name: Seq<char>)
    ensures
        forall|k: int| 0 <= k < matching_desc(s, name).len() ==> (#[trigger] matching_desc(
            s,
            name,
        )[k]).server_name == name && exists|j: int|
            0 <= j < s.len() && matching_desc(s, name)[k] == s[j],
    decreases s.len(),
{
    if s.len() == 0 {
    } else {
        let d = s.drop_last();
        let m = matching_desc(s, name);
        let md = matching_desc(d, name);
        lemma_matching_desc_members(d, name);
        assert forall|k: int| 0 <= k < m.len() implies (#[trigger] m[k]).server_name == name
            && exists|j: int| 0 <= j < s.len() && m[k] == s[j] by {
            if s.last().server_name == name && k == 0 {
                assert(m[0] == s[s.len() - 1]);
            } else {
                let ki = if s.last().server_name == name {
                    k - 1
                } else {
                    k
                };
                assert(m[k] == md[ki]);
                let j = choose|j: int| 0 <= j < d.len() && md[ki] == d[j];
                assert(m[k] == s[j]);
            }
        }
    }
}

/// On a well-formed log the recent window is what its name promises:
/// strictly ordered by time, most recent first.
pub proof fn lemma_recent_window_is_time_descending(s: Seq<SampleModel>, name: Seq<char>)
    requires
        sorted_by_time(s),
    ensures
        forall|a: int, b: int| 0 <= a < b < matching_desc(s, name).len() ==> (
        #[trigger] matching_desc(s, name)[a]).time > (#[trigger] matching_desc(s, name)[b]).time,
    decreases s.len(),
{
    if s.len() == 0 {
    } else {
        let d = s.drop_last();
        let m = matching_desc(s, name);
        let md = matching_desc(d, name);
        assert forall|i: int, j: int| 0 <= i < j < d.len() implies d[i].time < d[j].time by {
            assert(d[i] == s[i]);
            assert(d[j] == s[j]);
        }
        lemma_recent_window_is_time_descending(d, name);
        lemma_matching_desc_members(d, name);
        assert forall|a: int, b: int| 0 <= a < b < m.len() implies (#[trigger] m[a]).time > (
        #[trigger] m[b]).time by {
            if s.last().server_name == name {
                assert(m[0] == s.last());
                if a == 0 {
                    assert(m[b] == md[b - 1]);
                    let j = choose|j: int| 0 <= j < d.len() && md[b - 1] == d[j];
                    assert(d[j].time < s.last().time);
                } else {
                    assert(m[a] == md[a - 1]);
                    assert(m[b] == md[b - 1]);
                }
            } else {
                assert(m[a] == md[a]);
                assert(m[b] == md[b]);
            }
        }
    }
}

/// What "the most recent sample" means, spelled out: on a well-formed log,
/// a server has a latest sample exactly when some row carries its name, and
/// that sample is a matching row that no other matching row outdates.
pub proof fn lemma_latest_of_characterized(s: Seq<SampleModel>, name: Seq<char>)
    requires
        sorted_by_time(s),
    ensures
        match latest_of(s, name) {
            Option::Some(l) => l.server_name == name && (exists|j: int|
                0 <= j < s.len() && s[j] == l) && forall|j: int|
                0 <= j < s.len() && (#[trigger] s[j]).server_name == name ==> s[j].time <= l.time,
            Option::None => forall|j: int| 0 <= j < s.len() ==> (#[trigger] s[j]).server_name
                != name,
        },
    decreases s.len(),
{
    if s.len() == 0 {
    } else {
        let d = s.drop_last();
        assert forall|i: int, j: int| 0 <= i < j < d.len() implies d[i].time < d[j].time by {
            assert(d[i] == s[i]);
            assert(d[j] == s[j]);
        }
        if s.last().server_name == name {
            assert(matching_desc(s, name)[0] == s.last());
            assert(latest_of(s, name) == Option::Some(s.last()));
            assert(s[s.len() - 1] == s.last());
            assert forall|j: int|
                0 <= j < s.len() && (#[trigger] s[j]).server_name == name implies s[j].time
                <= s.last().time by {
                if j < s.len() - 1 {
                    assert(s[j].time < s[s.len() - 1].time);
                }
            }
        } else {
            assert(matching_desc(s, name) == matching_desc(d, name));
            lemma_latest_of_characterized(d, name);
            match latest_of(d, name) {
                Option::Some(l) => {
                    let j = choose|j: int| 0 <= j < d.len() && d[j] == l;
                    assert(s[j] == l);
                    assert forall|j2: int|
                        0 <= j2 < s.len() && (#[trigger] s[j2]).server_name == name implies s[j2].time
                        <= l.time by {
                        assert(j2 < s.len() - 1);
                        assert(d[j2] == s[j2]);
                    }
                },
                Option::None => {
                    assert forall|j: int| 0 <= j < s.len() implies (#[trigger] s[j]).server_name
                        != name by {
                        if j < s.len() - 1 {
                            assert(d[j] == s[j]);
                        }
                    }
                },
            }
        }
    }
}

/// A row that no later row shadows is its server's most recent sample.
proof fn lemma_last_occurrence_is_latest(s: Seq<SampleModel>, name: Seq<char>, p: int)
    requires
        0 <= p < s.len(),
        s[p].server_name == name,
        forall|j: int| p < j < s.len() ==> s[j].server_name != name,
    ensures
        latest_of(s, name) == Option::Some(s[p]),
    decreases s.len(),
{
    if p == s.len() - 1 {
        assert(matching_desc(s, name)[0] == s.last());
    } else {
        let d = s.drop_last();
        assert(s.last().server_name != name);
        assert(matching_desc(s, name) == matching_desc(d, name));
        assert(d[p] == s[p]);
        lemma_last_occurrence_is_latest(d, name, p);
    }
}

/// Whether some collected row already carries `name`.
#[verifier::loop_isolation(false)]
fn contains_name(rows: &Vec<DstatLog>, name: &str) -> (found: bool)
    ensures
        found == exists|k: int| 0 <= k < rows@.len() && (#[trigger] rows@[k])@.server_name == name@,
{
    let mut k: usize = 0;
    while k < rows.len()
        invariant
            k <= rows@.len(),
            forall|j: int| 0 <= j < k ==> (#[trigger] rows@[j])@.server_name != name@,
        decreases rows@.len() - k,
    {
        if str_eq(rows[k].server_name.as_str(), name) {
            return true;
        }
        k = k + 1;
    }
    false
}

impl LogStore {
    /// The store is well formed when its rows are strictly ordered by time.
    pub open spec fn wf(&self) -> bool {
        sorted_by_time(self@)
    }

    /// An empty log.
    pub fn new() -> (store: LogStore)
        ensures
            store@ == Seq::<SampleModel>::empty(),
            store.wf(),
    {
        let store = LogStore { rows: Vec::new() };
        proof {
            assert(store@ =~= Seq::<SampleModel>::empty());
        }
        store
    }

    /// Inserts one row. Succeeds exactly when no row already carries the
    /// sample's time; a collision leaves the log unchanged and reports
    /// [`StoreError::Conflict`].
    #[verifier::loop_isolation(false)]
    pub fn append(&mut self, sample: DstatLog) -> (result: Result<(), StoreError>)
        requires
            old(self).wf(),
        ensures
            final(self).wf(),
            match result {
                Ok(()) => !has_time(old(self)@, sample@.time) && final(self)@ == sorted_insert(
                    old(self)@,
                    sample@,
                ),
                Err(e) => e is Conflict && has_time(old(self)@, sample@.time) && final(self)@
                    == old(self)@,
            },
    {
        let mut i: usize = self.rows.len();
        while i > 0 && self.rows[i - 1].time > sample.time
            invariant
                i <= self.rows.len(),
                forall|j: int| i <= j < self@.len() ==> self@[j].time > sample@.time,
            decreases i,
        {
            i = i - 1;
        }
        if i > 0 && self.rows[i - 1].time == sample.time {
            assert(has_time(self@, sample@.time)) by {
                assert(self@[i - 1].time == sample@.time);
            }
            return Err(StoreError::Conflict);
        }
        proof {
            assert forall|k: int| 0 <= k < self@.len() implies self@[k].time != sample@.time by {
                if k < i {
                    assert(self@[k].time <= self@[i - 1].time);
                }
            }
        }
        let ghost rows0 = self.rows@;
        let ghost s0 = self@;
        self.rows.insert(i, sample);
        proof {
            rows0.insert_ensures(i as int, sample);
            s0.insert_ensures(i as int, sample@);
            assert(self@ =~= s0.insert(i as int, sample@));
            lemma_sorted_insert_at(s0, sample@, i as int);
        }
        Ok(())
    }

    /// Up to `limit` samples for `name`, most recent first: the log's
    /// recent window for that server. A server with no samples yields an
    /// empty window, not an error.
    #[verifier::loop_isolation(false)]
    pub fn recent_for(&self, name: &str, limit: usize) -> (window: Vec<DstatLog>)
        requires
            self.wf(),
        ensures
            logs_view(window@) == take_up_to(matching_desc(self@, name@), limit as int),
    {
        let ghost whole = matching_desc(self@, name@);
        let mut window: Vec<DstatLog> = Vec::new();
        let mut i: usize = self.rows.len();
        proof {
            assert(self@.subrange(0, i as int) =~= self@);
            assert(logs_view(window@) =~= Seq::<SampleModel>::empty());
            assert(logs_view(window@) + matching_desc(self@, name@) =~= matching_desc(
                self@,
                name@,
            ));
        }
        while i > 0 && window.len() < limit
            invariant
                i <= self.rows.len(),
                window@.len() <= limit,
                logs_view(window@) + matching_desc(self@.subrange(0, i as int), name@) == whole,
            decreases i,
        {
            let ghost before = logs_view(window@);
            let ghost prefix = self@.subrange(0, i as int);
            proof {
                assert(prefix.last() == self@[i - 1]);
                assert(prefix.drop_last() =~= self@.subrange(0, i as int - 1));
            }
            if str_eq(self.rows[i - 1].server_name.as_str(), name) {
                window.push(crate::models::copy_log(&self.rows[i - 1]));
                proof {
                    assert(logs_view(window@) =~= before.push(self@[i - 1]));
                    assert(before.push(self@[i - 1]) + matching_desc(
                        self@.subrange(0, i as int - 1),
                        name@,
                    ) =~= before + matching_desc(prefix, name@));
                }
            }
            i = i - 1;
        }
        proof {
            if i == 0 {
                assert(matching_desc(self@.subrange(0, 0), name@) =~= Seq::<SampleModel>::empty());
                assert(logs_view(window@) =~= whole);
            } else {
                assert(window@.len() == limit);
                assert(whole.len() >= limit);
                assert(logs_view(window@) =~= whole.take(limit as int));
            }
        }
        window
    }

    /// The most recent sample for `name`, if that server ever reported.
    pub fn latest_for(&self, name: &str) -> (latest: Option<DstatLog>)
        requires
            self.wf(),
        ensures
            match latest {
                Option::Some(l) => latest_of(self@, name@) == Option::Some(l@),
                Option::None => latest_of(self@, name@) is None,
            },
    {
        let mut window = self.recent_for(name, 1);
        let ghost whole = matching_desc(self@, name@);
        proof {
            if whole.len() > 0 {
                assert(logs_view(window@).len() == 1);
                assert(logs_view(window@)[0] == whole[0]);
            }
        }
        window.pop()
    }

    /// For every server with at least one sample, its single most recent
    /// sample: one row per server name, in no promised order. The fleet
    /// query reads its answer from this mapping.
    #[verifier::loop_isolation(false)]
    pub fn all_latest_per_server(&self) -> (latests: Vec<DstatLog>)
        requires
            self.wf(),
        ensures
            forall|k: int| 0 <= k < latests@.len() ==> latest_of(
                self@,
                (#[trigger] latests@[k])@.server_name,
            ) == Option::Some(latests@[k]@),
            forall|k1: int, k2: int| 0 <= k1 < k2 < latests@.len() ==> (#[trigger] latests@[k1])@.server_name
                != (#[trigger] latests@[k2])@.server_name,
            forall|j: int| 0 <= j < self@.len() ==> exists|k: int|
                0 <= k < latests@.len() && latests@[k]@.server_name == (#[trigger] self@[j]).server_name,
    {
        let mut latests: Vec<DstatLog> = Vec::new();
        let mut i: usize = self.rows.len();
        while i > 0
            invariant
                i <= self.rows.len(),
                forall|k: int| 0 <= k < latests@.len() ==> latest_of(
                    self@,
                    (#[trigger] latests@[k])@.server_name,
                ) == Option::Some(latests@[k]@),
                forall|k1: int, k2: int| 0 <= k1 < k2 < latests@.len() ==> (
                #[trigger] latests@[k1])@.server_name != (#[trigger] latests@[k2])@.server_name,
                forall|j: int| i <= j < self@.len() ==> exists|k: int|
                    0 <= k < latests@.len() && latests@[k]@.server_name == (
                    #[trigger] self@[j]).server_name,
            decreases i,
        {
            let had = contains_name(&latests, self.rows[i - 1].server_name.as_str());
            let ghost before = latests@;
            if !had {
                proof {
                    assert forall|j: int| i - 1 < j < self@.len() implies (
                    #[trigger] self@[j]).server_name != self@[i - 1].server_name by {}
                    lemma_last_occurrence_is_latest(self@, self@[i - 1].server_name, i - 1);
                }
                latests.push(crate::models::copy_log(&self.rows[i - 1]));
            }
            proof {
                assert forall|j: int| i - 1 <= j < self@.len() implies exists|k: int|
                    0 <= k < latests@.len() && latests@[k]@.server_name == (
                #[trigger] self@[j]).server_name by {
                    if j == i - 1 && had {
                        let k = choose|k: int|
                            0 <= k < before.len() && (#[trigger] before[k])@.server_name
                                == self.rows@[i - 1].server_name@;
                        assert(latests@[k]@.server_name == self@[j].server_name);
                    } else if j == i - 1 {
                        assert(latests@[latests@.len() - 1]@.server_name == self@[j].server_name);
                    } else {
                        let k = choose|k: int|
                            0 <= k < before.len() && before[k]@.server_name == (
                            #[trigger] self@[j]).server_name;
                        assert(latests@[k]@.server_name == self@[j].server_name);
                    }
                }
            }
            i = i - 1;
        }
        latests
    }
}

} // verus!

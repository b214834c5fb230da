//! The coordinate store: at most one row per name, writes replace the
//! previous value and refresh the timestamp, reads can be limited to a
//! freshness window.

use crate::models::{CoordsModel, UserCoords};
use vstd::prelude::*;

verus! {

/// Rows a listing returns at most, by default.
pub const DEFAULT_ROW_CAP: usize = 20;

/// The default freshness window, in milliseconds: 60 minutes.
pub const DEFAULT_WINDOW_MS: u64 = 60 * 60 * 1000;

/// One stored row: the last known position of one user.
#[derive(Debug)]
pub struct Row {
    pub name: String,
    pub latitude: u64,
    pub longitude: u64,
    pub timestamp: u64,
}

/// The mathematical shape of a stored row.
#[verifier::ext_equal]
pub struct RowModel {
    pub name: Seq<char>,
    pub latitude: u64,
    pub longitude: u64,
    pub timestamp: u64,
}

impl View for Row {
    type V = RowModel;

    open spec fn view(&self) -> RowModel {
        RowModel {
            name: self.name@,
            latitude: self.latitude,
            longitude: self.longitude,
            timestamp: self.timestamp,
        }
    }
}

/// A row is fresh at instant `now` under `window` when its timestamp is
/// strictly greater than `now - window`.
pub open spec fn is_fresh(timestamp: u64, now: u64, window: u64) -> bool {
    timestamp > now - window
}

/// The table holds some row named `name`.
pub open spec fn has_name(rows: Seq<RowModel>, name: Seq<char>) -> bool {
    exists|i: int| 0 <= i < rows.len() && rows[i].name == name
}

/// The position of the row named `name` (meaningful only when `has_name`
/// holds; unique whenever `distinct_names` holds).
pub open spec fn index_of_name(rows: Seq<RowModel>, name: Seq<char>) -> int {
    choose|i: int| 0 <= i < rows.len() && rows[i].name == name
}

/// What the table holds for `name`.
pub open spec fn spec_find(rows: Seq<RowModel>, name: Seq<char>) -> Option<RowModel> {
    if has_name(rows, name) {
        Some(rows[index_of_name(rows, name)])
    } else {
        None
    }
}

/// The table after a write of `row`: the row with the same name is replaced
/// in place, a new name is appended.
pub open spec fn spec_upsert(rows: Seq<RowModel>, row: RowModel) -> Seq<RowModel> {
    if has_name(rows, row.name) {
        rows.update(index_of_name(rows, row.name), row)
    } else {
        rows.push(row)
    }
}

/// Freshness at `now` under `window`, as a predicate on rows.
pub open spec fn fresh_pred(now: u64, window: u64) -> spec_fn(RowModel) -> bool {
    |m: RowModel| is_fresh(m.timestamp, now, window)
}

/// The rows fresh at `now` under `window`, in table order.
pub open spec fn spec_recent(rows: Seq<RowModel>, now: u64, window: u64) -> Seq<RowModel> {
    rows.filter(fresh_pred(now, window))
}

/// The first `cap` rows of a listing.
pub open spec fn capped(rows: Seq<RowModel>, cap: usize) -> Seq<RowModel> {
    if rows.len() <= cap {
        rows
    } else {
        rows.take(cap as int)
    }
}

/// The table holds at most one row per name.
pub open spec fn distinct_names(rows: Seq<RowModel>) -> bool {
    forall|i: int, j: int|
        0 <= i < rows.len() && 0 <= j < rows.len() && i != j ==> rows[i].name != rows[j].name
}

/// The row written for a client payload: the payload's name and coordinates
/// with the server-assigned write instant.
pub open spec fn stamped(c: CoordsModel, now: u64) -> RowModel {
    RowModel { name: c.name, latitude: c.latitude, longitude: c.longitude, timestamp: now }
}

/// The payload a stored row is returned as: the timestamp is always present.
pub open spec fn coords_of_row(m: RowModel) -> CoordsModel {
    CoordsModel {
        name: m.name,
        latitude: m.latitude,
        longitude: m.longitude,
        timestamp: Some(m.timestamp),
    }
}

/// A listing of stored rows as returned payloads.
pub open spec fn coords_of_rows(rows: Seq<RowModel>) -> Seq<CoordsModel> {
    rows.map_values(|m: RowModel| coords_of_row(m))
}

/// The models of a returned vector of payloads.
pub open spec fn models(v: Seq<UserCoords>) -> Seq<CoordsModel> {
    v.map_values(|c: UserCoords| c@)
}

/// Decides freshness at `now` under `window`, exactly as `is_fresh` says.
pub fn fresh_at(timestamp: u64, now: u64, window: u64) -> (b: bool)
    ensures
        b == is_fresh(timestamp, now, window),
{
    (timestamp as u128) + (window as u128) > (now as u128)
}

/// The store of current positions.
pub struct CoordStore {
    rows: Vec<Row>,
    cap: usize,
}

impl View for CoordStore {
    type V = Seq<RowModel>;

    closed spec fn view(&self) -> Seq<RowModel> {
        self.rows@.map_values(|r: Row| r@)
    }
}

impl CoordStore {
    /// The rows hold at most one entry per name.
    pub open spec fn wf(&self) -> bool {
        distinct_names(self@)
    }

    /// How many rows a listing returns at most.
    pub closed spec fn spec_cap(&self) -> usize {
        self.cap
    }

    /// An empty store with the given listing cap.
    pub fn new(cap: usize) -> (s: Self)
        ensures
            s.wf(),
            s@ == Seq::<RowModel>::empty(),
            s.spec_cap() == cap,
    {
        let s = CoordStore { rows: Vec::new(), cap };
        proof {
            assert(s@ =~= Seq::<RowModel>::empty());
        }
        s
    }

    /// The position of the row named `name`, if one exists.
    fn find_index(&self, name: &String) -> (r: Option<usize>)
        ensures
            match r {
                Some(i) => i < self@.len() && self@[i as int].name == name@,
                None => !has_name(self@, name@),
            },
    {
        let n = self.rows.len();
        for i in 0..n
            invariant
                n == self.rows.len(),
                forall|j: int| 0 <= j < i ==> self@[j].name != name@,
        {
            if self.rows[i].name.eq(name) {
                return Some(i);
            }
        }
        proof {
            assert(!has_name(self@, name@));
        }
        None
    }

    /// Inserts a new row for a new name, otherwise overwrites the row's
    /// coordinates in place; either way the row carries the server-assigned
    /// write instant `now`. Returns the stored row.
    pub fn upsert_coords(&mut self, coords: &UserCoords, now: u64) -> (r: UserCoords)
        requires
            old(self).wf(),
        ensures
            final(self).wf(),
            final(self)@ == spec_upsert(old(self)@, stamped(coords@, now)),
            final(self).spec_cap() == old(self).spec_cap(),
            r@ == coords_of_row(stamped(coords@, now)),
    {
        let row = Row {
            name: coords.name.clone(),
            latitude: coords.latitude,
            longitude: coords.longitude,
            timestamp: now,
        };
        match self.find_index(&coords.name) {
            Some(i) => {
                proof {
                    let ghost rows = self@;
                    assert(has_name(rows, coords.name@));
                    let k = index_of_name(rows, coords.name@);
                    assert(0 <= k < rows.len() && rows[k].name == coords.name@);
                    assert(k == i);
                }
                self.rows.set(i, row);
                proof {
                    assert(self@ =~= spec_upsert(old(self)@, stamped(coords@, now)));
                    lemma_upsert_preserves_distinct(old(self)@, stamped(coords@, now));
                }
            },
            None => {
                self.rows.push(row);
                proof {
                    assert(self@ =~= spec_upsert(old(self)@, stamped(coords@, now)));
                    lemma_upsert_preserves_distinct(old(self)@, stamped(coords@, now));
                }
            },
        }
        UserCoords {
            name: coords.name.clone(),
            latitude: coords.latitude,
            longitude: coords.longitude,
            timestamp: Some(now),
        }
    }

    /// Returns up to the store's cap of rows, in table order, with no time
    /// filter.
    pub fn get_all_cords(&self) -> (r: Vec<UserCoords>)
        ensures
            models(r@) == coords_of_rows(capped(self@, self.spec_cap())),
            r@.len() <= self.spec_cap(),
    {
        let n = if self.rows.len() <= self.cap {
            self.rows.len()
        } else {
            self.cap
        };
        let mut out: Vec<UserCoords> = Vec::new();
        for i in 0..n
            invariant
                n <= self.rows.len(),
                n <= self.cap,
                out@.len() == i,
                models(out@) =~~= coords_of_rows(self@.take(i as int)),
        {
            let row = &self.rows[i];
            let c = UserCoords {
                name: row.name.clone(),
                latitude: row.latitude,
                longitude: row.longitude,
                timestamp: Some(row.timestamp),
            };
            let ghost cm = c@;
            let ghost prev = out@;
            out.push(c);
            proof {
                assert(cm =~~= coords_of_row(self@[i as int]));
                assert(out@ == prev.push(c));
                assert(out@.len() == i + 1);
                assert forall|k: int| 0 <= k < i + 1 implies models(out@)[k] =~~= coords_of_rows(
                    self@.take(i + 1),
                )[k] by {
                    assert(self@.take(i + 1)[k] == self@[k]);
                    if k < i {
                        assert(out@[k] == prev[k]);
                        assert(models(prev)[k] == prev[k]@);
                        assert(models(prev)[k] =~~= coords_of_rows(self@.take(i as int))[k]);
                        assert(coords_of_rows(self@.take(i as int))[k] =~~= coords_of_row(
                            self@.take(i as int)[k],
                        ));
                    } else {
                        assert(out@[k]@ == cm);
                    }
                }
                assert(models(out@) =~~= coords_of_rows(self@.take(i + 1)));
            }
        }
        proof {
            assert(self@.take(n as int) =~= capped(self@, self.spec_cap()));
            assert(models(out@) =~~= coords_of_rows(capped(self@, self.spec_cap())));
        }
        out
    }

    /// Returns up to the store's cap of rows whose timestamp is strictly
    /// newer than `now - window`, in table order; stale rows are excluded
    /// entirely.
    pub fn get_all_cords_time_limited(&self, now: u64, window: u64) -> (r: Vec<UserCoords>)
        ensures
            models(r@) == coords_of_rows(capped(spec_recent(self@, now, window), self.spec_cap())),
            r@.len() <= self.spec_cap(),
    {
        let n = self.rows.len();
        let mut fresh: Vec<UserCoords> = Vec::new();
        for i in 0..n
            invariant
                n == self.rows.len(),
                models(fresh@) =~~= coords_of_rows(spec_recent(self@.take(i as int), now, window)),
        {
            let ghost rec = spec_recent(self@.take(i as int), now, window);
            proof {
                assert(self@.take(i + 1) =~= self@.take(i as int).push(self@[i as int]));
                lemma_filter_push(self@.take(i as int), self@[i as int], fresh_pred(now, window));
            }
            let row = &self.rows[i];
            if fresh_at(row.timestamp, now, window) {
                let c = UserCoords {
                    name: row.name.clone(),
                    latitude: row.latitude,
                    longitude: row.longitude,
                    timestamp: Some(row.timestamp),
                };
                let ghost cm = c@;
                let ghost prev = fresh@;
                fresh.push(c);
                proof {
                    let rec1 = spec_recent(self@.take(i + 1), now, window);
                    assert(rec1 == rec.push(self@[i as int]));
                    assert(cm =~~= coords_of_row(self@[i as int]));
                    assert(fresh@ == prev.push(c));
                    assert(models(prev) =~~= coords_of_rows(rec));
                    assert(models(prev).len() == prev.len());
                    assert(coords_of_rows(rec).len() == rec.len());
                    assert(prev.len() == rec.len());
                    assert forall|k: int| 0 <= k < fresh@.len() implies models(fresh@)[k] =~~= coords_of_rows(
                        rec1,
                    )[k] by {
                        if k < prev.len() {
                            assert(fresh@[k] == prev[k]);
                            assert(models(prev)[k] == prev[k]@);
                            assert(models(prev)[k] =~~= coords_of_rows(rec)[k]);
                            assert(coords_of_rows(rec)[k] =~~= coords_of_row(rec[k]));
                            assert(rec1[k] == rec[k]);
                        } else {
                            assert(fresh@[k]@ == cm);
                            assert(rec1[k] == self@[i as int]);
                        }
                    }
                    assert(models(fresh@) =~~= coords_of_rows(rec1));
                }
            } else {
                proof {
                    assert(spec_recent(self@.take(i + 1), now, window) == rec);
                    assert(models(fresh@) =~~= coords_of_rows(
                        spec_recent(self@.take(i + 1), now, window),
                    ));
                }
            }
        }
        proof {
            assert(self@.take(n as int) =~= self@);
        }
        let ghost rec_all = spec_recent(self@, now, window);
        if fresh.len() > self.cap {
            let ghost prev = fresh@;
            fresh.truncate(self.cap);
            proof {
                assert(fresh@ == prev.subrange(0, self.cap as int));
                assert(prev.len() == rec_all.len());
                assert(capped(rec_all, self.spec_cap()) == rec_all.take(self.cap as int));
                assert forall|k: int| 0 <= k < fresh@.len() implies models(fresh@)[k] =~~= coords_of_rows(
                    rec_all.take(self.cap as int),
                )[k] by {
                    assert(fresh@[k] == prev[k]);
                    assert(models(prev)[k] == prev[k]@);
                    assert(models(prev)[k] =~~= coords_of_rows(rec_all)[k]);
                    assert(coords_of_rows(rec_all)[k] =~~= coords_of_row(rec_all[k]));
                    assert(rec_all.take(self.cap as int)[k] == rec_all[k]);
                }
                assert(models(fresh@) =~~= coords_of_rows(capped(rec_all, self.spec_cap())));
            }
        } else {
            proof {
                assert(models(fresh@).len() == rec_all.len());
                assert(capped(rec_all, self.spec_cap()) == rec_all);
                assert(models(fresh@) =~~= coords_of_rows(capped(rec_all, self.spec_cap())));
            }
        }
        fresh
    }

    /// Returns the row for `username` if one exists, with no time filter,
    /// else an explicit not-found result.
    pub fn get_specific_user_coords(&self, username: &String) -> (r: Option<UserCoords>)
        requires
            self.wf(),
        ensures
            match spec_find(self@, username@) {
                Some(m) => r matches Some(c) && c@ == coords_of_row(m),
                None => r is None,
            },
    {
        match self.find_index(username) {
            Some(i) => {
                proof {
                    lemma_find_at(self@, username@, i as int);
                }
                let row = &self.rows[i];
                Some(UserCoords {
                    name: row.name.clone(),
                    latitude: row.latitude,
                    longitude: row.longitude,
                    timestamp: Some(row.timestamp),
                })
            },
            None => None,
        }
    }

    /// Returns the row for `username` only if it exists and is fresh at
    /// `now` under `window`; an unknown name and a stale row both give the
    /// same not-found result.
    pub fn get_specific_user_coords_time_limited(
        &self,
        username: &String,
        now: u64,
        window: u64,
    ) -> (r: Option<UserCoords>)
        requires
            self.wf(),
        ensures
            match spec_find(self@, username@) {
                Some(m) => {
                    if is_fresh(m.timestamp, now, window) {
                        r matches Some(c) && c@ == coords_of_row(m)
                    } else {
                        r is None
                    }
                },
                None => r is None,
            },
    {
        match self.find_index(username) {
            Some(i) => {
                proof {
                    lemma_find_at(self@, username@, i as int);
                }
                let row = &self.rows[i];
                if fresh_at(row.timestamp, now, window) {
                    Some(UserCoords {
                        name: row.name.clone(),
                        latitude: row.latitude,
                        longitude: row.longitude,
                        timestamp: Some(row.timestamp),
                    })
                } else {
                    None
                }
            },
            None => None,
        }
    }
}

/// Filtering one more row keeps the filtered prefix and appends the row
/// exactly when it passes the predicate.
proof fn lemma_filter_push<A>(s: Seq<A>, x: A, p: spec_fn(A) -> bool)
    ensures
        s.push(x).filter(p) == (if p(x) {
            s.filter(p).push(x)
        } else {
            s.filter(p)
        }),
{
    reveal(Seq::filter);
    assert(s.push(x).drop_last() =~= s);
    assert(s.push(x).last() == x);
    assert(s.push(x).len() == s.len() + 1);
}

/// In a table of distinct names, a row that carries `name` is the row
/// `spec_find` returns.
proof fn lemma_find_at(rows: Seq<RowModel>, name: Seq<char>, i: int)
    requires
        distinct_names(rows),
        0 <= i < rows.len(),
        rows[i].name == name,
    ensures
        spec_find(rows, name) == Some(rows[i]),
        index_of_name(rows, name) == i,
{
    assert(has_name(rows, name));
    let k = index_of_name(rows, name);
    assert(0 <= k < rows.len() && rows[k].name == name);
    assert(k == i);
}

/// A write keeps the names distinct: the table never grows a second row for
/// one name.
pub proof fn lemma_upsert_preserves_distinct(rows: Seq<RowModel>, row: RowModel)
    requires
        distinct_names(rows),
    ensures
        distinct_names(spec_upsert(rows, row)),
{
    if has_name(rows, row.name) {
        let k = index_of_name(rows, row.name);
        assert(0 <= k < rows.len() && rows[k].name == row.name);
        let after = rows.update(k, row);
        assert forall|i: int, j: int|
            0 <= i < after.len() && 0 <= j < after.len() && i != j implies after[i].name
            != after[j].name by {
            assert(after[i] == (if i == k { row } else { rows[i] }));
            assert(after[j] == (if j == k { row } else { rows[j] }));
        }
    } else {
        let after = rows.push(row);
        assert forall|i: int, j: int|
            0 <= i < after.len() && 0 <= j < after.len() && i != j implies after[i].name
            != after[j].name by {
            if i < rows.len() && j < rows.len() {
                assert(after[i] == rows[i] && after[j] == rows[j]);
            } else if i == rows.len() {
                assert(after[i] == row && after[j] == rows[j]);
                assert(!(rows[j].name == row.name)) by {
                    assert(!has_name(rows, row.name));
                }
            } else {
                assert(after[j] == row && after[i] == rows[i]);
                assert(!(rows[i].name == row.name)) by {
                    assert(!has_name(rows, row.name));
                }
            }
        }
    }
}

/// Law: after a write, a lookup of the written name returns exactly the
/// written row — its coordinates and its server-assigned timestamp.
pub proof fn lemma_upsert_then_find(rows: Seq<RowModel>, row: RowModel)
    requires
        distinct_names(rows),
    ensures
        spec_find(spec_upsert(rows, row), row.name) == Some(row),
{
    let after = spec_upsert(rows, row);
    if has_name(rows, row.name) {
        let k = index_of_name(rows, row.name);
        assert(0 <= k < rows.len() && rows[k].name == row.name);
        assert(after == rows.update(k, row));
        assert(after[k] == row);
        lemma_upsert_preserves_distinct(rows, row);
        lemma_find_at(after, row.name, k);
    } else {
        assert(after == rows.push(row));
        assert(after[rows.len() as int] == row);
        lemma_upsert_preserves_distinct(rows, row);
        lemma_find_at(after, row.name, rows.len() as int);
    }
}

/// Law: writing one name twice leaves exactly one row for that name, the
/// second write's row; the result is the same table a single second write
/// would have produced, and the second write adds no row.
pub proof fn lemma_upsert_twice(rows: Seq<RowModel>, first: RowModel, second: RowModel)
    requires
        distinct_names(rows),
        first.name == second.name,
    ensures
        spec_upsert(spec_upsert(rows, first), second) == spec_upsert(rows, second),
        spec_upsert(spec_upsert(rows, first), second).len() == spec_upsert(rows, first).len(),
        spec_find(spec_upsert(spec_upsert(rows, first), second), second.name) == Some(second),
        distinct_names(spec_upsert(spec_upsert(rows, first), second)),
{
    let once = spec_upsert(rows, first);
    let twice = spec_upsert(once, second);
    lemma_upsert_preserves_distinct(rows, first);
    lemma_upsert_preserves_distinct(rows, second);
    lemma_upsert_then_find(rows, first);
    lemma_upsert_preserves_distinct(once, second);
    lemma_upsert_then_find(once, second);
    if has_name(rows, first.name) {
        let k = index_of_name(rows, first.name);
        assert(0 <= k < rows.len() && rows[k].name == first.name);
        assert(once == rows.update(k, first));
        assert(once[k].name == second.name);
        assert(has_name(once, second.name));
        lemma_find_at(once, second.name, k);
        assert(twice == once.update(k, second));
        lemma_find_at(rows, first.name, k);
        assert(spec_upsert(rows, second) == rows.update(k, second));
        assert(twice =~= spec_upsert(rows, second));
    } else {
        let n = rows.len() as int;
        assert(once == rows.push(first));
        assert(once[n].name == second.name);
        assert(has_name(once, second.name));
        lemma_find_at(once, second.name, n);
        assert(twice == once.update(n, second));
        assert(spec_upsert(rows, second) == rows.push(second));
        assert(twice =~= spec_upsert(rows, second));
    }
}

/// Law: a recent listing, capped or not, contains only fresh rows, and a
/// stale row of the table never appears in it. A plain lookup, by contrast,
/// applies no time filter, as the contract of `get_specific_user_coords`
/// states.
pub proof fn lemma_recent_excludes_stale(rows: Seq<RowModel>, now: u64, window: u64, cap: usize)
    ensures
        forall|k: int|
            0 <= k < spec_recent(rows, now, window).len() ==> is_fresh(
                #[trigger] spec_recent(rows, now, window)[k].timestamp,
                now,
                window,
            ),
        forall|k: int|
            0 <= k < rows.len() && !is_fresh(#[trigger] rows[k].timestamp, now, window)
                ==> !spec_recent(rows, now, window).contains(rows[k]),
        forall|k: int|
            0 <= k < rows.len() && !is_fresh(#[trigger] rows[k].timestamp, now, window)
                ==> !capped(spec_recent(rows, now, window), cap).contains(rows[k]),
{
    let p = fresh_pred(now, window);
    let recent = rows.filter(p);
    let listed = capped(recent, cap);
    assert forall|k: int| 0 <= k < recent.len() implies is_fresh(
        recent[k].timestamp,
        now,
        window,
    ) by {
        rows.lemma_filter_pred(p, k);
    }
    assert forall|k: int|
        0 <= k < rows.len() && !is_fresh(rows[k].timestamp, now, window) implies !recent.contains(
        rows[k],
    ) by {
        if recent.contains(rows[k]) {
            let j = choose|j: int| 0 <= j < recent.len() && recent[j] == rows[k];
            rows.lemma_filter_pred(p, j);
        }
    }
    assert forall|k: int|
        0 <= k < rows.len() && !is_fresh(rows[k].timestamp, now, window) implies !listed.contains(
        rows[k],
    ) by {
        if listed.contains(rows[k]) {
            let j = choose|j: int| 0 <= j < listed.len() && listed[j] == rows[k];
            assert(listed[j] == recent[j]);
            rows.lemma_filter_pred(p, j);
        }
    }
}

/// Law: a capped listing never holds more rows than the cap.
pub proof fn lemma_capped_bound(rows: Seq<RowModel>, cap: usize)
    ensures
        capped(rows, cap).len() <= cap,
{
}

} // verus!

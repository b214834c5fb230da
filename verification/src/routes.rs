//! Request-handling decisions: gate the write, call the store, and map the
//! outcome to a response.
//!
//! The transport layer hands these functions plain values (the presented
//! credential, the parsed payload, the current instant) and turns the
//! returned value into a wire response with the status its contract names.

use crate::auth::token_matches;
use crate::db::{
    capped, coords_of_row, coords_of_rows, models, spec_find, spec_recent, spec_upsert, stamped,
    CoordStore, DEFAULT_WINDOW_MS,
};
use crate::models::UserCoords;
use vstd::prelude::*;

verus! {

/// The outcome of a write request.
pub enum UpdateResponse {
    /// The write was authorized and applied; carries the stored row,
    /// timestamp included. Served with status 200.
    Updated(UserCoords),
    /// The presented credential does not match the secret; the store was
    /// not touched. Served with status 401.
    Unauthorized,
}

/// The outcome of a single-user read request.
pub enum UserResponse {
    /// The row for the requested name. Served with status 200.
    Found(UserCoords),
    /// No row for the requested name. Served with status 404.
    NotFound,
}

impl UpdateResponse {
    /// The HTTP status this outcome is served with.
    pub fn status(&self) -> (s: u16)
        ensures
            self is Updated ==> s == 200,
            self is Unauthorized ==> s == 401,
    {
        match self {
            UpdateResponse::Updated(_) => 200,
            UpdateResponse::Unauthorized => 401,
        }
    }
}

impl UserResponse {
    /// The HTTP status this outcome is served with.
    pub fn status(&self) -> (s: u16)
        ensures
            self is Found ==> s == 200,
            self is NotFound ==> s == 404,
    {
        match self {
            UserResponse::Found(_) => 200,
            UserResponse::NotFound => 404,
        }
    }
}

/// Handles a write request: a write without the correct bearer credential
/// never mutates the store and yields an unauthorized result; with the
/// correct credential the position is upserted under the server-assigned
/// instant `now` and the stored row is returned.
pub fn update_location(
    store: &mut CoordStore,
    token: &String,
    secret: &String,
    coords: &UserCoords,
    now: u64,
) -> (r: UpdateResponse)
    requires
        old(store).wf(),
    ensures
        final(store).wf(),
        final(store).spec_cap() == old(store).spec_cap(),
        token@ != secret@ ==> final(store)@ == old(store)@ && r is Unauthorized,
        token@ == secret@ ==> final(store)@ == spec_upsert(old(store)@, stamped(coords@, now)) && (
        r matches UpdateResponse::Updated(c) && c@ == coords_of_row(stamped(coords@, now))),
{
    if token_matches(token, secret) {
        let stored = store.upsert_coords(coords, now);
        UpdateResponse::Updated(stored)
    } else {
        UpdateResponse::Unauthorized
    }
}

/// Handles the list request: the rows fresh at `now` under the default
/// freshness window, up to the store's cap.
pub fn get_locations(store: &CoordStore, now: u64) -> (r: Vec<UserCoords>)
    ensures
        models(r@) == coords_of_rows(
            capped(spec_recent(store@, now, DEFAULT_WINDOW_MS), store.spec_cap()),
        ),
        r@.len() <= store.spec_cap(),
{
    store.get_all_cords_time_limited(now, DEFAULT_WINDOW_MS)
}

/// Handles a single-user read: the row for `username` if one exists (with
/// no time filter), else an explicit not-found outcome.
pub fn get_user(store: &CoordStore, username: &String) -> (r: UserResponse)
    requires
        store.wf(),
    ensures
        match spec_find(store@, username@) {
            Some(m) => r matches UserResponse::Found(c) && c@ == coords_of_row(m),
            None => r is NotFound,
        },
{
    match store.get_specific_user_coords(username) {
        Some(c) => UserResponse::Found(c),
        None => UserResponse::NotFound,
    }
}

} // verus!

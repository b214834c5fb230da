//! The data model: a user's last reported position.

use vstd::prelude::*;

verus! {

/// A user's position as it crosses the library boundary.
///
/// `latitude` and `longitude` carry the raw bit pattern of a 64-bit
/// coordinate value; the library transports them untouched and never
/// interprets them. `timestamp` is the server-assigned write instant in
/// milliseconds; it is `None` on a client-supplied payload (clients never
/// choose the timestamp) and always `Some` on a row the store hands back.
#[derive(Debug)]
pub struct UserCoords {
    pub name: String,
    pub latitude: u64,
    pub longitude: u64,
    pub timestamp: Option<u64>,
}

/// The mathematical shape of a `UserCoords` value.
#[verifier::ext_equal]
pub struct CoordsModel {
    pub name: Seq<char>,
    pub latitude: u64,
    pub longitude: u64,
    pub timestamp: Option<u64>,
}

impl View for UserCoords {
    type V = CoordsModel;

    open spec fn view(&self) -> CoordsModel {
        CoordsModel {
            name: self.name@,
            latitude: self.latitude,
            longitude: self.longitude,
            timestamp: self.timestamp,
        }
    }
}

} // verus!

//! The list items supplied by the external data source.

use vstd::prelude::*;

verus! {

/// One entry of the fetched list.
///
/// Only `id` matters to the reordering core: it is the stable identifier a
/// rendered element is keyed by. The display fields are opaque payload that
/// the rendering layer shows but never inspects here.
#[derive(Clone, Debug, PartialEq, Eq)]
pub struct User {
    pub id: i64,
    pub name: String,
    pub username: String,
    pub email: String,
    pub website: String,
}

} // verus!

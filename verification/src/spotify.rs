//! What the remote catalogue answers to a search.

use vstd::prelude::*;

verus! {

/// One result of a search in the remote catalogue. It lives only until it is
/// accepted or passed over.
#[derive(Clone, Debug)]
pub struct Candidate {
    /// The identifier the remote catalogue gives the track.
    pub id: String,
    /// The title as the catalogue shows it.
    pub name: String,
    /// The names of the artists, in the catalogue's order.
    pub artists: Vec<String>,
    /// Where the track can be looked at, if the catalogue says so.
    pub url: Option<String>,
}

impl Candidate {
    pub fn new(id: String, name: String, artists: Vec<String>, url: Option<String>) -> (r:
        Candidate)
        ensures
            r.id == id,
            r.name == name,
            r.artists == artists,
            r.url == url,
    {
        Candidate { id, name, artists, url }
    }
}

} // verus!

//! What the operator can ask for, and between which services.

use vstd::prelude::*;
use vstd::string::StringExecFns;

verus! {

/// What the operator can ask for.
#[derive(Clone, Copy, Debug, PartialEq, Eq, Structural)]
pub enum Actions {
    TransferLibrary,
    TransferPlaylist,
}

/// A service that holds a music library.
#[derive(Clone, Copy, Debug, PartialEq, Eq, Structural)]
pub enum Services {
    Itunes,
    Spotify,
}

/// The words that stand for an action.
pub open spec fn action_text(action: Actions) -> Seq<char> {
    match action {
        Actions::TransferLibrary => "Transfer music library"@,
        Actions::TransferPlaylist => "Transfer music playlist"@,
    }
}

/// The name of a service.
pub open spec fn service_text(service: Services) -> Seq<char> {
    match service {
        Services::Itunes => "Itunes"@,
        Services::Spotify => "Spotify"@,
    }
}

/// The services, in the order in which they are offered.
pub open spec fn services() -> Seq<Services> {
    seq![Services::Itunes, Services::Spotify]
}

impl Actions {
    /// The actions, in the order in which they are offered.
    pub fn all() -> (r: Vec<Actions>)
        ensures
            r@ == seq![Actions::TransferLibrary, Actions::TransferPlaylist],
    {
        let mut out: Vec<Actions> = Vec::new();
        out.push(Actions::TransferLibrary);
        out.push(Actions::TransferPlaylist);
        out
    }

    /// The words that stand for the action.
    pub fn label(&self) -> (r: String)
        ensures
            r@ == action_text(*self),
    {
        match self {
            Actions::TransferLibrary => String::from_str("Transfer music library"),
            Actions::TransferPlaylist => String::from_str("Transfer music playlist"),
        }
    }
}

impl Services {
    /// The services, in the order in which they are offered.
    pub fn all() -> (r: Vec<Services>)
        ensures
            r@ == services(),
    {
        let mut out: Vec<Services> = Vec::new();
        out.push(Services::Itunes);
        out.push(Services::Spotify);
        out
    }

    /// The name of the service.
    pub fn label(&self) -> (r: String)
        ensures
            r@ == service_text(*self),
    {
        match self {
            Services::Itunes => String::from_str("Itunes"),
            Services::Spotify => String::from_str("Spotify"),
        }
    }

    /// The services that a library of this service can be transferred to:
    /// all but the service itself, in the order in which they are offered.
    pub fn destinations(&self) -> (r: Vec<Services>)
        ensures
            r@ == services().filter(|s: Services| s != *self),
    {
        let all = Services::all();
        let ghost other = |s: Services| s != *self;
        let mut out: Vec<Services> = Vec::new();
        let mut i: usize = 0;
        while i < all.len()
            invariant
                i <= all.len(),
                all@ == services(),
                other == |s: Services| s != *self,
                out@ == all@.take(i as int).filter(other),
            decreases all.len() - i,
        {
            proof {
                assert(all@.take(i + 1).drop_last() == all@.take(i as int));
                reveal(Seq::filter);
            }
            if all[i] != *self {
                out.push(all[i]);
            }
            i = i + 1;
        }
        assert(all@.take(all.len() as int) == all@);
        out
    }

    /// The words that ask where a library of this service is to go.
    pub fn destination_prompt(&self) -> (r: String)
        ensures
            r@ == "From "@ + service_text(*self) + " ===> To"@,
    {
        let mut out = String::from_str("From ");
        let name = self.label();
        out.append(name.as_str());
        out.append(" ===> To");
        out
    }
}

/// Whether a library can be transferred from the one service to the other:
/// so far only from Itunes to Spotify.
pub fn transfer_supported(from: Services, to: Services) -> (r: bool)
    ensures
        r == (from is Itunes && to is Spotify),
{
    match (from, to) {
        (Services::Itunes, Services::Spotify) => true,
        _ => false,
    }
}

} // verus!

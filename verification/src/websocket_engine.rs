//! A minimal WebSocket engine: a table of connections keyed by
//! numeric identifiers, each holding a greeting.
use std::collections::HashMap;
use vstd::prelude::*;

verus! {

broadcast use vstd::std_specs::hash::group_hash_axioms;

/// A minimal WebSocket engine.
pub struct WebsocketEngine {
    connection: HashMap<u32, String>,
}

impl WebsocketEngine {
    /// The connections, by identifier, with what each holds.
    pub closed spec fn connections(self) -> Map<u32, Seq<char>> {
        self.connection@.map_values(|s: String| s@)
    }

    /// An engine with no connection.
    pub fn new() -> (e: WebsocketEngine)
        ensures
            e.connections() == Map::<u32, Seq<char>>::empty(),
    {
        let e = WebsocketEngine { connection: HashMap::new() };
        assert(e.connections() =~= Map::<u32, Seq<char>>::empty());
        e
    }

    /// The address this engine listens on.
    pub fn bind_address() -> (a: String)
        ensures
            a@ == "127.0.0.1:8080"@,
    {
        String::from_str("127.0.0.1:8080")
    }

    /// Whether the drawn identifier `candidate` is taken: the search for a
    /// connection identifier ends on the first draw that is.
    pub fn accept_candidate(&self, candidate: u32) -> (r: Option<u32>)
        ensures
            r == (if self.connections().contains_key(candidate) {
                Some(candidate)
            } else {
                None::<u32>
            }),
    {
        match self.connection.get(&candidate) {
            Some(_) => Some(candidate),
            None => None,
        }
    }

    /// Records the connection `id`, holding the greeting `Yo`.
    pub fn new_connection(&mut self, id: u32)
        ensures
            final(self).connections() == old(self).connections().insert(id, "Yo"@),
    {
        self.connection.insert(id, String::from_str("Yo"));
        assert(self.connections() =~= old(self).connections().insert(id, "Yo"@));
    }
}

} // verus!

//! A registry of named event handlers. A handler is registered under an
//! event name and is called with that name when the event is emitted.
use crate::string_map::StringMap;
use vstd::prelude::*;

verus! {

/// Maps event names to the handlers registered for them.
pub struct EventEngine<C> {
    event: StringMap<C>,
}

impl<C> View for EventEngine<C> {
    type V = Map<Seq<char>, C>;

    /// The handler registered under each event name.
    closed spec fn view(&self) -> Map<Seq<char>, C> {
        self.event@
    }
}

impl<C> EventEngine<C> {
    /// The table of handlers is well formed.
    #[verifier::type_invariant]
    spec fn wf(self) -> bool {
        self.event.wf()
    }

    /// An engine with no handler registered.
    pub fn new() -> (engine: EventEngine<C>)
        ensures
            engine@ == Map::<Seq<char>, C>::empty(),
    {
        EventEngine { event: StringMap::new() }
    }

    /// Registers `cb` under `id`, replacing any handler registered there.
    pub fn on(&mut self, id: String, cb: C)
        ensures
            final(self)@ == old(self)@.insert(id@, cb),
    {
        proof {
            use_type_invariant(&*self);
        }
        let mut table = StringMap::new();
        std::mem::swap(&mut table, &mut self.event);
        table.insert(id, cb);
        self.event = table;
    }

    /// Registers `cb` under the name `id`.
    pub fn on_raw(&mut self, id: &str, cb: C)
        ensures
            final(self)@ == old(self)@.insert(id@, cb),
    {
        self.on(String::from_str(id), cb);
    }

    /// Removes the handler registered under `id`, if any.
    pub fn unon(&mut self, id: String)
        ensures
            final(self)@ == old(self)@.remove(id@),
    {
        proof {
            use_type_invariant(&*self);
        }
        let mut table = StringMap::new();
        std::mem::swap(&mut table, &mut self.event);
        let _ = table.remove(&id);
        self.event = table;
    }

    /// Removes the handler registered under the name `id`, if any.
    pub fn unon_raw(&mut self, id: &str)
        ensures
            final(self)@ == old(self)@.remove(id@),
    {
        self.unon(String::from_str(id));
    }

    /// Whether a handler is registered under `id`.
    pub fn is_set(&mut self, id: String) -> (set: bool)
        ensures
            *final(self) == *old(self),
            set == old(self)@.contains_key(id@),
    {
        proof {
            use_type_invariant(&*self);
        }
        self.event.contains_key(&id)
    }

    /// Whether a handler is registered under the name `id`.
    pub fn is_set_raw(&mut self, id: &str) -> (set: bool)
        ensures
            *final(self) == *old(self),
            set == old(self)@.contains_key(id@),
    {
        self.is_set(String::from_str(id))
    }
}

impl<C: FnMut(String)> EventEngine<C> {
    /// Calls the handler registered under `id` with `id`, and tells whether
    /// there was one. Every name stays registered, and the handlers of the
    /// other names are left as they were.
    pub fn emit(&mut self, id: String) -> (fired: bool)
        requires
            old(self)@.contains_key(id@) ==> call_requires(old(self)@[id@], (id,)),
        ensures
            final(self)@.dom() == old(self)@.dom(),
            final(self)@.remove(id@) == old(self)@.remove(id@),
            fired == old(self)@.contains_key(id@),
            fired ==> call_ensures(old(self)@[id@], (id,), ()),
    {
        proof {
            use_type_invariant(&*self);
        }
        let key = id.clone();
        let mut table = StringMap::new();
        std::mem::swap(&mut table, &mut self.event);
        let fired = table.call(&key, id);
        self.event = table;
        fired
    }
}

/// Registering a handler under a name that was not set and then removing it
/// gives back the registry as it was.
pub proof fn law_unon_undoes_on<C>(before: Map<Seq<char>, C>, id: Seq<char>, cb: C)
    requires
        !before.contains_key(id),
    ensures
        before.insert(id, cb).remove(id) == before,
{
    assert(before.insert(id, cb).remove(id) =~= before);
}

/// A handler registered with `on` is the one that an emit of that name
/// calls (the name is set); a later registration under the same name
/// replaces it and leaves no trace of it; other names are untouched.
pub proof fn law_emit_calls_latest_handler<C>(
    e0: EventEngine<C>,
    e1: EventEngine<C>,
    e2: EventEngine<C>,
    id: Seq<char>,
    other: Seq<char>,
    first: C,
    second: C,
)
    requires
        e1@ == e0@.insert(id, first),
        e2@ == e1@.insert(id, second),
        other != id,
    ensures
        e1@.contains_key(id) && e1@[id] == first,
        e2@.contains_key(id) && e2@[id] == second,
        e2@ == e0@.insert(id, second),
        e2@.contains_key(other) == e0@.contains_key(other),
        e0@.contains_key(other) ==> e2@[other] == e0@[other],
{
    assert(e2@ =~= e0@.insert(id, second));
}

/// Emitting never unregisters: along any run of emits (each keeping the
/// names, as `emit` ensures) that starts with `id` set, `id` stays set, so
/// every emit of it fires.
pub proof fn law_emits_keep_registration<C>(runs: Seq<EventEngine<C>>, id: Seq<char>)
    requires
        runs.len() > 0,
        runs[0]@.contains_key(id),
        forall|i: int| 0 <= i < runs.len() - 1 ==> #[trigger] runs[i + 1]@.dom() == runs[i]@.dom(),
    ensures
        forall|i: int| 0 <= i < runs.len() ==> #[trigger] runs[i]@.contains_key(id),
    decreases runs.len(),
{
    if runs.len() > 1 {
        let prefix = runs.drop_last();
        assert forall|i: int| 0 <= i < prefix.len() - 1 implies #[trigger] prefix[i + 1]@.dom()
            == prefix[i]@.dom() by {
            assert(prefix[i + 1] == runs[i + 1]);
            assert(runs[i + 1]@.dom() == runs[i]@.dom());
        }
        law_emits_keep_registration(prefix, id);
        let n = runs.len() - 1;
        assert(runs[n - 1]@.contains_key(id)) by {
            assert(prefix[n - 1] == runs[n - 1]);
        }
        assert(runs[(n - 1) + 1]@.dom() == runs[n - 1]@.dom());
        assert forall|i: int| 0 <= i < runs.len() implies #[trigger] runs[i]@.contains_key(id) by {
            if i < n {
                assert(prefix[i] == runs[i]);
            }
        }
    }
}

} // verus!

use vstd::prelude::*;

verus! {

/// Host identifiers with the handle each is bound to, held in a `HashMap` with
/// fxhash's hasher.
#[verifier::external_body]
pub struct IdMap {
    map: std::collections::HashMap<u32, usize, fxhash::FxBuildHasher>,
}

/// The entries of the map.
pub uninterp spec fn entries(m: IdMap) -> Map<u32, usize>;

impl IdMap {
    /// Relies on HashMap::default with fxhash::FxBuildHasher: a new, empty map.
    #[verifier::external_body]
    pub(crate) fn new() -> (r: IdMap)
        ensures
            entries(r).dom() == Set::<u32>::empty(),
    {
        IdMap { map: std::collections::HashMap::default() }
    }

    /// Relies on HashMap::get: the handle of the identifier, if it has one.
    #[verifier::external_body]
    pub(crate) fn get(&self, id: u32) -> (r: Option<usize>)
        ensures
            entries(*self).contains_key(id) ==> r == Some(entries(*self)[id]),
            !entries(*self).contains_key(id) ==> r is None,
    {
        self.map.get(&id).copied()
    }

    /// Relies on HashMap::insert: binds the identifier to the handle.
    #[verifier::external_body]
    pub(crate) fn insert(&mut self, id: u32, handle: usize)
        ensures
            entries(*final(self)) == entries(*old(self)).insert(id, handle),
    {
        self.map.insert(id, handle);
    }

    /// Relies on HashMap::remove: takes the identifier out.
    #[verifier::external_body]
    pub(crate) fn remove(&mut self, id: u32)
        ensures
            entries(*final(self)) == entries(*old(self)).remove(id),
    {
        self.map.remove(&id);
    }
}

/// The record of which host identifiers are bound to a slot. It belongs to the
/// one thread that creates and destroys host objects. Before it is initialized
/// and after it is shut down it holds nothing: every query answers "absent" and
/// every change is a no-op, since the host may destroy objects late.
pub struct RegisteredMixes {
    ids: Option<IdMap>,
    /// The handle that each registered identifier is bound to.
    bindings: Ghost<Map<u32, usize>>,
}

impl RegisteredMixes {
    /// Whether the tracker is between initialization and shutdown.
    pub closed spec fn active(&self) -> bool {
        self.ids is Some
    }

    /// The registered identifiers, each with the handle it is bound to.
    pub closed spec fn bindings(&self) -> Map<u32, usize> {
        self.bindings@
    }

    pub closed spec fn wf(&self) -> bool {
        &&& self.ids is None ==> self.bindings@ == Map::<u32, usize>::empty()
        &&& self.ids is Some ==> entries(self.ids->0) == self.bindings@
        &&& self.bindings@.dom().finite()
    }

    /// Outside its lifetime the tracker binds nothing.
    pub proof fn lemma_inactive_binds_nothing(&self)
        requires
            self.wf(),
            !self.active(),
        ensures
            self.bindings() == Map::<u32, usize>::empty(),
    {
    }

    /// A tracker binds finitely many identifiers.
    pub proof fn lemma_bindings_finite(&self)
        requires
            self.wf(),
        ensures
            self.bindings().dom().finite(),
    {
    }

    /// A tracker that has not been initialized yet.
    pub fn uninitialized() -> (r: RegisteredMixes)
        ensures
            r.wf(),
            !r.active(),
            r.bindings() == Map::<u32, usize>::empty(),
    {
        RegisteredMixes { ids: None, bindings: Ghost(Map::empty()) }
    }

    /// Starts the tracker's lifetime with no identifier registered.
    pub fn initialize(&mut self)
        ensures
            final(self).wf(),
            final(self).active(),
            final(self).bindings() == Map::<u32, usize>::empty(),
    {
        let map = IdMap::new();
        assert(entries(map) =~= Map::<u32, usize>::empty());
        self.ids = Some(map);
        self.bindings = Ghost(Map::empty());
    }

    /// Ends the tracker's lifetime; every identifier is forgotten.
    pub fn shut_down(&mut self)
        ensures
            final(self).wf(),
            !final(self).active(),
            final(self).bindings() == Map::<u32, usize>::empty(),
    {
        self.ids = None;
        self.bindings = Ghost(Map::empty());
    }

    /// Whether the tracker is between initialization and shutdown.
    pub fn is_active(&self) -> (r: bool)
        ensures
            r == self.active(),
    {
        self.ids.is_some()
    }

    /// Whether the identifier is bound to a slot; `false` outside the tracker's lifetime.
    pub fn is_registered_mix(&self, id: u32) -> (r: bool)
        requires
            self.wf(),
        ensures
            r == self.bindings().contains_key(id),
    {
        match &self.ids {
            Some(map) => map.get(id).is_some(),
            None => false,
        }
    }

    /// The handle that the identifier is bound to; `None` when it is not
    /// registered or outside the tracker's lifetime.
    pub fn handle_of(&self, id: u32) -> (r: Option<usize>)
        requires
            self.wf(),
        ensures
            self.bindings().contains_key(id) ==> r == Some(self.bindings()[id]),
            !self.bindings().contains_key(id) ==> r is None,
    {
        match &self.ids {
            Some(map) => map.get(id),
            None => None,
        }
    }

    /// Records that the identifier is bound to the handle; a no-op outside the
    /// tracker's lifetime.
    pub fn register_mix(&mut self, id: u32, handle: usize)
        requires
            old(self).wf(),
        ensures
            final(self).wf(),
            final(self).active() == old(self).active(),
            old(self).active() ==> final(self).bindings() == old(self).bindings().insert(id, handle),
            !old(self).active() ==> final(self).bindings() == old(self).bindings(),
    {
        match &mut self.ids {
            Some(map) => {
                map.insert(id, handle);
                self.bindings = Ghost(self.bindings@.insert(id, handle));
            },
            None => {},
        }
    }

    /// Forgets the identifier; a no-op when it is unknown or outside the tracker's lifetime.
    pub fn unregister_mix(&mut self, id: u32)
        requires
            old(self).wf(),
        ensures
            final(self).wf(),
            final(self).active() == old(self).active(),
            final(self).bindings() == old(self).bindings().remove(id),
    {
        match &mut self.ids {
            Some(map) => {
                map.remove(id);
                self.bindings = Ghost(self.bindings@.remove(id));
            },
            None => {},
        }
    }
}

} // verus!

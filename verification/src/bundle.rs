//! Registration: the bundle that collects the attribute types of an
//! application, and the accessor that tells the scheduler which resources
//! applying them will touch.

use crate::prefab::{SerializeDynamic, SerializerMap};
use crate::system::PrefabLoaderSystem;
use crate::type_uuid::{type_id, uuid_from_bytes};
use std::collections::HashMap;
use vstd::prelude::*;

verus! {

/// The resources that applying the registered types reads and writes, and
/// the one-time setup action of each registered type.
///
/// `R` names a resource and `U` is a setup action; each list is in the
/// order of registration.
pub struct DynamicPrefabAccessor<R, U> {
    reads: Vec<R>,
    writes: Vec<R>,
    setup: Vec<U>,
}

/// What an accessor holds.
pub struct AccessorView<R, U> {
    pub reads: Seq<R>,
    pub writes: Seq<R>,
    pub setup: Seq<U>,
}

impl<R, U> View for DynamicPrefabAccessor<R, U> {
    type V = AccessorView<R, U>;

    closed spec fn view(&self) -> AccessorView<R, U> {
        AccessorView { reads: self.reads@, writes: self.writes@, setup: self.setup@ }
    }
}

impl<R, U> DynamicPrefabAccessor<R, U> {
    /// An accessor cannot be made up from nothing: it only comes out of a
    /// bundle.
    pub fn try_new() -> (accessor: Option<Self>)
        ensures
            accessor is None,
    {
        None
    }

    /// The resources that a pass over the registered types reads.
    pub fn reads(&self) -> (reads: &Vec<R>)
        ensures
            reads@ == self@.reads,
    {
        &self.reads
    }

    /// The resources that a pass over the registered types writes.
    pub fn writes(&self) -> (writes: &Vec<R>)
        ensures
            writes@ == self@.writes,
    {
        &self.writes
    }

    /// The setup actions of the registered types.
    pub fn setup(&self) -> (setup: &Vec<U>)
        ensures
            setup@ == self@.setup,
    {
        &self.setup
    }
}

/// Collects the attribute types that may appear in prefab data.
pub struct DynamicPrefabBundle<S, R, U> {
    serializer_map: SerializerMap<S>,
    reads: Vec<R>,
    writes: Vec<R>,
    setup: Vec<U>,
}

/// What a bundle holds.
pub struct BundleView<S, R, U> {
    /// The registered deserializers by identifier.
    pub registry: Map<u128, S>,
    pub reads: Seq<R>,
    pub writes: Seq<R>,
    pub setup: Seq<U>,
}

impl<S, R, U> View for DynamicPrefabBundle<S, R, U> {
    type V = BundleView<S, R, U>;

    closed spec fn view(&self) -> BundleView<S, R, U> {
        BundleView {
            registry: self.serializer_map@,
            reads: self.reads@,
            writes: self.writes@,
            setup: self.setup@,
        }
    }
}

impl<S: SerializeDynamic, R, U> DynamicPrefabBundle<S, R, U> {
    /// A bundle with nothing registered.
    pub fn new() -> (bundle: Self)
        ensures
            bundle@.registry == Map::<u128, S>::empty(),
            bundle@.reads == Seq::<R>::empty(),
            bundle@.writes == Seq::<R>::empty(),
            bundle@.setup == Seq::<U>::empty(),
    {
        DynamicPrefabBundle {
            serializer_map: HashMap::new(),
            reads: Vec::new(),
            writes: Vec::new(),
            setup: Vec::new(),
        }
    }

    /// Registers the type with the identifier `uuid`: `serializer` builds
    /// its payloads, applying them reads `reads` and writes `writes`, and
    /// `setup` prepares the world for them.
    ///
    /// A type registered earlier under the same identifier is replaced in
    /// the registry; what it declared stays in the accessor's lists.
    pub fn register_component(
        &mut self,
        uuid: uuid::Bytes,
        serializer: S,
        reads: Vec<R>,
        writes: Vec<R>,
        setup: U,
    )
        ensures
            final(self)@.registry == old(self)@.registry.insert(type_id(uuid) as u128, serializer),
            final(self)@.reads == old(self)@.reads + reads@,
            final(self)@.writes == old(self)@.writes + writes@,
            final(self)@.setup == old(self)@.setup.push(setup),
    {
        let uuid = uuid_from_bytes(uuid);
        self.serializer_map.insert(uuid, serializer);

        // Add a record of all the resource types that component needs in order to be
        // instantiated.
        let mut reads = reads;
        let mut writes = writes;
        self.reads.append(&mut reads);
        self.writes.append(&mut writes);

        self.setup.push(setup);
    }

    /// The loader system for the registered types, with the accessor
    /// computed from what they declared.
    pub fn build(self) -> (system: PrefabLoaderSystem<S, R, U>)
        ensures
            system@.registry == self@.registry,
            system@.accessor == (AccessorView {
                reads: self@.reads,
                writes: self@.writes,
                setup: self@.setup,
            }),
            system@.pending == Set::<u32>::empty(),
            system@.finished == Seq::<u32>::empty(),
            system@.next_tag == 0,
    {
        let accessor = DynamicPrefabAccessor {
            reads: self.reads,
            writes: self.writes,
            setup: self.setup,
        };

        PrefabLoaderSystem::new(self.serializer_map, accessor)
    }
}

impl<S: SerializeDynamic, R, U> Default for DynamicPrefabBundle<S, R, U> {
    /// A bundle with nothing registered.
    fn default() -> (bundle: Self)
        ensures
            bundle@.registry == Map::<u128, S>::empty(),
            bundle@.reads == Seq::<R>::empty(),
            bundle@.writes == Seq::<R>::empty(),
            bundle@.setup == Seq::<U>::empty(),
    {
        DynamicPrefabBundle::new()
    }
}

/// Registering a second type under an identifier replaces the first: the
/// registry is the same as if only the second had been registered.
pub proof fn lemma_last_registration_wins<S>(
    registry: Map<u128, S>,
    uuid: u128,
    first: S,
    second: S,
)
    ensures
        registry.insert(uuid, first).insert(uuid, second) == registry.insert(uuid, second),
        registry.insert(uuid, second)[uuid] == second,
{
    assert(registry.insert(uuid, first).insert(uuid, second) =~= registry.insert(uuid, second));
}

/// Whatever a type declares when it is registered is in the accessor of
/// the built system: the declared sets are never under-reported.
pub proof fn lemma_declared_resources_are_reported<R>(
    before: Seq<R>,
    declared: Seq<R>,
    resource: R,
)
    requires
        declared.contains(resource),
    ensures
        (before + declared).contains(resource),
        forall|earlier: R| before.contains(earlier) ==> (before + declared).contains(earlier),
{
    let k = choose|k: int| 0 <= k < declared.len() && declared[k] == resource;
    assert((before + declared)[before.len() + k] == resource);
    assert forall|earlier: R| before.contains(earlier) implies (before + declared).contains(
        earlier,
    ) by {
        let j = choose|j: int| 0 <= j < before.len() && before[j] == earlier;
        assert((before + declared)[j] == earlier);
    }
}

} // verus!

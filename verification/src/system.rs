//! The loader system: what is decided, tick after tick, about the prefabs
//! that are being loaded and about the entities that wait for one.

use crate::bundle::{AccessorView, DynamicPrefabAccessor};
use crate::loader::DynamicPrefabTag;
use crate::prefab::{
    accepts, lemma_acceptable_entity_resolves_in_full, lemma_quiet_prefab_does_not_fail,
    lemma_quiet_prefab_requests_nothing, lemma_sub_assets_keep_shape, nothing_to_load, resolves,
    resolves_entity, rows, sub_assets_failed, sub_assets_loaded, DataView, DroppedAttribute,
    DynamicPrefab, DynamicPrefabData, IntermediateDynamicPrefab, IntermediateView, PrefabPayload,
    PrefabView, SerializeDynamic, SerializerMap,
};
use std::collections::HashSet;
use vstd::prelude::*;

verus! {

/// How far the nested loads of a prefab have come.
#[derive(Clone, Copy, Debug, PartialEq, Eq)]
pub enum Completion {
    /// All of them are done.
    Complete,
    /// At least one of them failed.
    Failed,
    /// Some are still under way.
    Loading,
}

/// What the storage of prefab references reports about an entity, named
/// by its identifier.
#[derive(Clone, Copy, Debug, PartialEq, Eq)]
pub enum ComponentEvent {
    /// The entity was given a reference to a prefab.
    Inserted(u32),
    /// The reference of the entity was changed.
    Modified(u32),
    /// The reference of the entity was taken away.
    Removed(u32),
}

/// The entities that `events` report a new reference for.
pub open spec fn inserted(events: Seq<ComponentEvent>) -> Set<u32> {
    Set::new(
        |id: u32|
            exists|k: int|
                0 <= k < events.len() && #[trigger] events[k] == ComponentEvent::Inserted(id),
    )
}

/// What has become of a prefab after one pass over it.
pub enum ProcessingState<P: PrefabPayload> {
    /// Nested loads are under way: look at the prefab again next tick.
    Loading(IntermediateDynamicPrefab<P>),
    /// The prefab is complete.
    Loaded(DynamicPrefab<P>),
}

/// Why a prefab failed. A failed prefab is dropped as a whole.
pub enum ProcessingError<P: PrefabPayload> {
    /// A payload failed to request its nested loads.
    StartingSubAssets(P::Error),
    /// The tracker reported that a nested load failed. The tracker is
    /// handed back, for the errors it recorded.
    SubAssetFailed(P::Progress),
}

impl<P: PrefabPayload> ProcessingError<P> {
    /// A short description of the failure.
    pub fn message(&self) -> (message: &'static str)
        ensures
            self is StartingSubAssets ==> message@ == "Failed starting sub asset loading"@,
            self is SubAssetFailed ==> message@ == "Failed loading sub asset"@,
    {
        match self {
            ProcessingError::StartingSubAssets(_) => "Failed starting sub asset loading",
            ProcessingError::SubAssetFailed(_) => "Failed loading sub asset",
        }
    }
}

/// A payload that reported an error when it was applied to its entity.
#[derive(Debug, PartialEq, Eq)]
pub struct ApplyError<E> {
    /// Position of the payload among those of its entity.
    pub attribute: usize,
    pub error: E,
}

/// What instantiating a prefab gave.
pub struct Instantiation<P: PrefabPayload> {
    /// The entities of the prefab, the root first.
    pub entities: Vec<P::Entity>,
    /// For each entity record the payloads that could not be applied.
    pub failures: Vec<Vec<ApplyError<P::Error>>>,
}

/// The per-tick loader of prefabs.
pub struct PrefabLoaderSystem<S, R, U> {
    serializer_map: SerializerMap<S>,
    accessor: DynamicPrefabAccessor<R, U>,
    finished: Vec<u32>,
    to_process: HashSet<u32>,
    next_tag: u64,
}

/// What a loader system holds.
pub struct SystemView<S, R, U> {
    /// The registered deserializers by identifier.
    pub registry: Map<u128, S>,
    pub accessor: AccessorView<R, U>,
    /// The entities that hold a reference to a prefab and wait for it.
    pub pending: Set<u32>,
    /// The entities instantiated since the last end of a pass.
    pub finished: Seq<u32>,
    /// The tag that the next new prefab gets.
    pub next_tag: u64,
}

impl<S, R, U> View for PrefabLoaderSystem<S, R, U> {
    type V = SystemView<S, R, U>;

    closed spec fn view(&self) -> SystemView<S, R, U> {
        SystemView {
            registry: self.serializer_map@,
            accessor: self.accessor@,
            pending: self.to_process@,
            finished: self.finished@,
            next_tag: self.next_tag,
        }
    }
}

/// `typed` is the typed data of a prefab with the data `data`, and
/// `dropped` what was dropped on the way: data that is typed already is
/// taken as it is, and parsed data is resolved against `registry`.
pub open spec fn resolved_data<S: SerializeDynamic>(
    registry: Map<u128, S>,
    data: DataView<S::Data>,
    typed: Seq<Seq<S::Data>>,
    dropped: Seq<Seq<DroppedAttribute<<S::Data as PrefabPayload>::Error>>>,
) -> bool {
    match data {
        DataView::Typed(already) => typed == already && dropped.len() == 0,
        DataView::Untyped(untyped) => resolves(registry, untyped, typed, dropped),
    }
}

/// `outcome` is what the answer of `complete` about the tracker `counter`
/// makes of a prefab with the tag `tag` and the payloads `typed`: loaded
/// when the nested loads are complete; failed when one of them failed,
/// with the tracker handed back; and otherwise still loading, with nothing
/// about it changed.
pub open spec fn settled<P: PrefabPayload, F: Fn(&P::Progress) -> Completion>(
    tag: u64,
    typed: Seq<Seq<P>>,
    counter: P::Progress,
    complete: F,
    outcome: Result<ProcessingState<P>, ProcessingError<P>>,
) -> bool {
    ||| {
        &&& call_ensures(complete, (&counter,), Completion::Complete)
        &&& outcome matches Ok(ProcessingState::Loaded(prefab))
        &&& prefab@ == (PrefabView { tag, entities: typed })
    }
    ||| {
        &&& call_ensures(complete, (&counter,), Completion::Failed)
        &&& outcome matches Err(ProcessingError::SubAssetFailed(tracker))
        &&& tracker == counter
    }
    ||| {
        &&& call_ensures(complete, (&counter,), Completion::Loading)
        &&& outcome matches Ok(ProcessingState::Loading(prefab))
        &&& prefab@ == (IntermediateView {
            tag: Some(tag),
            entities: DataView::Typed(typed),
            counter: Some(counter),
        })
    }
}

/// The nested loads of the payloads `typed` were triggered, starting with
/// the tracker `progress` and the world `world`; the payloads came back as
/// `loaded.0`, the tracker as `loaded.1`, the world as `left`, and
/// `requested` says whether any payload asked for a nested load.
pub open spec fn triggers<W, P: DynamicPrefabData<W>>(
    typed: Seq<Seq<P>>,
    progress: P::Progress,
    world: W,
    loaded: (Seq<Seq<P>>, P::Progress),
    left: W,
    requested: bool,
) -> bool {
    sub_assets_loaded(typed, progress, world, loaded.0, loaded.1, left, requested)
}

/// `outcome` is what triggering the nested loads of a prefab with the tag
/// `tag` and the payloads `typed` may give, and `left` the world it
/// leaves: a failure when a payload failed to request its loads; the
/// loaded prefab when no payload asked for one; and otherwise whatever the
/// tracker's answer makes of it.
pub open spec fn triggered<W, P: DynamicPrefabData<W>, F: Fn(&P::Progress) -> Completion>(
    tag: u64,
    typed: Seq<Seq<P>>,
    progress: P::Progress,
    world: W,
    complete: F,
    outcome: Result<ProcessingState<P>, ProcessingError<P>>,
    left: W,
) -> bool {
    ||| {
        &&& outcome matches Err(ProcessingError::StartingSubAssets(error))
        &&& sub_assets_failed(typed, progress, world, error, left)
    }
    ||| {
        &&& outcome matches Ok(ProcessingState::Loaded(prefab))
        &&& prefab@.tag == tag
        &&& exists|counted: P::Progress| #[trigger]
            triggers(typed, progress, world, (prefab@.entities, counted), left, false)
    }
    ||| exists|loaded: (Seq<Seq<P>>, P::Progress)|
        {
            &&& #[trigger] triggers(typed, progress, world, loaded, left, true)
            &&& settled(tag, loaded.0, loaded.1, complete, outcome)
        }
}

/// `outcome` and `dropped` are what one pass over the prefab `before` may
/// give, and `left` the world it leaves, when `next_tag` is the tag a new
/// prefab gets.
///
/// The prefab keeps the tag it has, or gets `next_tag`. Its data is
/// resolved unless it is typed already. If its nested loads have not been
/// triggered, they are, with `progress` as their tracker and starting
/// from the world `world`; if they have, the tracker it holds is asked and
/// the world is left alone.
pub open spec fn processed<W, S: SerializeDynamic, F: Fn(
    &<S::Data as PrefabPayload>::Progress,
) -> Completion>(
    registry: Map<u128, S>,
    next_tag: u64,
    before: IntermediateView<S::Data>,
    progress: <S::Data as PrefabPayload>::Progress,
    world: W,
    complete: F,
    outcome: Result<ProcessingState<S::Data>, ProcessingError<S::Data>>,
    dropped: Seq<Seq<DroppedAttribute<<S::Data as PrefabPayload>::Error>>>,
    left: W,
) -> bool where S::Data: DynamicPrefabData<W> {
    let tag = match before.tag {
        Some(tag) => tag,
        None => next_tag,
    };
    exists|typed: Seq<Seq<S::Data>>|
        {
            &&& #[trigger] resolved_data(registry, before.entities, typed, dropped)
            &&& match before.counter {
                Some(counter) => left == world && settled(tag, typed, counter, complete, outcome),
                None => triggered(tag, typed, progress, world, complete, outcome, left),
            }
        }
}

/// Applied to `entity` in the world `world`, the payload may report
/// success and leave the world `left`.
pub open spec fn applied<W, P: DynamicPrefabData<W>>(
    payload: P,
    entity: P::Entity,
    world: W,
    entities: Vec<P::Entity>,
    left: W,
) -> bool {
    call_ensures(
        <P as DynamicPrefabData<W>>::add_to_entity,
        (&payload, entity, world, &entities),
        (left, Ok::<(), P::Error>(())),
    )
}

/// Applied to `entity` in the world `world`, the payload may report
/// `error` and leave the world `left`.
pub open spec fn rejected<W, P: DynamicPrefabData<W>>(
    payload: P,
    entity: P::Entity,
    world: W,
    entities: Vec<P::Entity>,
    error: P::Error,
    left: W,
) -> bool {
    call_ensures(
        <P as DynamicPrefabData<W>>::add_to_entity,
        (&payload, entity, world, &entities),
        (left, Err::<(), P::Error>(error)),
    )
}

/// One more payload is applied, the one at the position `attribute`:
/// either it reports success and `failures` is `earlier`, or it reports
/// an error and `failures` is `earlier` with that error added for its
/// position.
pub open spec fn applies_next<W, P: DynamicPrefabData<W>>(
    payload: P,
    entity: P::Entity,
    world: W,
    entities: Vec<P::Entity>,
    left: W,
    attribute: int,
    earlier: Seq<ApplyError<P::Error>>,
    failures: Seq<ApplyError<P::Error>>,
) -> bool {
    ||| failures == earlier && applied(payload, entity, world, entities, left)
    ||| {
        &&& failures.len() > 0
        &&& failures.drop_last() == earlier
        &&& failures.last().attribute == attribute
        &&& rejected(payload, entity, world, entities, failures.last().error, left)
    }
}

/// `failures` is what applying the payloads `payloads` to `entity` may
/// give, and `left` the world it leaves: the payloads are applied in
/// order, the first to the world `world` and each other to the world as
/// the one before it left it, whether that one reported an error or not;
/// the errors that came back are listed in order with the position of
/// their payload.
pub open spec fn applies_entity<W, P: DynamicPrefabData<W>>(
    payloads: Seq<P>,
    entity: P::Entity,
    world: W,
    entities: Vec<P::Entity>,
    failures: Seq<ApplyError<P::Error>>,
    left: W,
) -> bool
    decreases payloads.len(),
{
    if payloads.len() == 0 {
        failures.len() == 0 && left == world
    } else {
        exists|between: W, earlier: Seq<ApplyError<P::Error>>|
            {
                &&& applies_entity(
                    payloads.drop_last(),
                    entity,
                    world,
                    entities,
                    earlier,
                    between,
                )
                &&& #[trigger] applies_next(
                    payloads.last(),
                    entity,
                    between,
                    entities,
                    left,
                    payloads.len() - 1,
                    earlier,
                    failures,
                )
            }
    }
}

/// The payloads of one entity record are applied to the entity of the
/// record, as in `applies_entity`.
pub open spec fn applies_record<W, P: DynamicPrefabData<W>>(
    payloads: Seq<P>,
    entity: P::Entity,
    world: W,
    entities: Vec<P::Entity>,
    failures: Seq<ApplyError<P::Error>>,
    left: W,
) -> bool {
    applies_entity(payloads, entity, world, entities, failures, left)
}

/// The payloads of the entity records `records` are applied, record by
/// record in order, each record to the entity at its position in
/// `entities`, each starting from the world as the record before it left
/// it. Row `i` of `failures` lists the errors of record `i`.
pub open spec fn applies_all<W, P: DynamicPrefabData<W>>(
    records: Seq<Seq<P>>,
    entities: Vec<P::Entity>,
    world: W,
    failures: Seq<Seq<ApplyError<P::Error>>>,
    left: W,
) -> bool
    decreases records.len(),
{
    if records.len() == 0 {
        failures.len() == 0 && left == world
    } else {
        &&& failures.len() > 0
        &&& records.len() <= entities@.len()
        &&& exists|between: W|
            {
                &&& applies_all(
                    records.drop_last(),
                    entities,
                    world,
                    failures.drop_last(),
                    between,
                )
                &&& #[trigger] applies_record(
                    records.last(),
                    entities@[records.len() - 1],
                    between,
                    entities,
                    failures.last(),
                    left,
                )
            }
    }
}

/// The entities `made` are made by `create`, one after the other, each
/// with the tag `tag`; the first is made in the world `world`, each other
/// in the world as the one before it left it, and the last leaves the
/// world `left`.
pub open spec fn creates<W, E, C: Fn(W, DynamicPrefabTag) -> (W, E)>(
    tag: u64,
    world: W,
    create: C,
    made: Seq<E>,
    left: W,
) -> bool
    decreases made.len(),
{
    if made.len() == 0 {
        left == world
    } else {
        exists|between: W|
            {
                &&& creates(tag, world, create, made.drop_last(), between)
                &&& #[trigger] call_ensures(
                    create,
                    (between, DynamicPrefabTag::of(tag)),
                    (left, made.last()),
                )
            }
    }
}

/// The entities after the first in `entities` are made as in `creates`,
/// starting from the world `world` and leaving the world `left`.
pub open spec fn creates_rest<W, E, C: Fn(W, DynamicPrefabTag) -> (W, E)>(
    tag: u64,
    world: W,
    create: C,
    entities: Seq<E>,
    left: W,
) -> bool {
    creates(tag, world, create, entities.skip(1), left)
}

/// `entities` and `failures` are what instantiating `prefab` at the
/// entity `root` may give, and `left` is the world it leaves.
///
/// The first entity is `root` itself. For every entity record after the
/// first, one entity is made by `create`, which is handed the prefab's
/// tag for it; the root gets no tag. When all entities are made, the
/// payloads are applied: record by record, and within a record one by
/// one, each to the entity of its record.
pub open spec fn instantiates<W, P: DynamicPrefabData<W>, C: Fn(W, DynamicPrefabTag) -> (
    W,
    P::Entity,
)>(
    prefab: PrefabView<P>,
    root: P::Entity,
    world: W,
    create: C,
    entities: Vec<P::Entity>,
    failures: Seq<Seq<ApplyError<P::Error>>>,
    left: W,
) -> bool {
    &&& entities@.len() == if prefab.entities.len() == 0 {
        1
    } else {
        prefab.entities.len()
    }
    &&& entities@[0] == root
    &&& exists|between: W|
        {
            &&& #[trigger] creates_rest(prefab.tag, world, create, entities@, between)
            &&& applies_all(prefab.entities, entities, between, failures, left)
        }
}

/// Applies the payloads of one entity record to `entity`, in order. A
/// payload that reports an error is skipped: those after it are applied
/// all the same.
pub fn apply_entity<W, P: DynamicPrefabData<W>>(
    payloads: &Vec<P>,
    entity: P::Entity,
    world: W,
    entities: &Vec<P::Entity>,
) -> (applied: (W, Vec<ApplyError<P::Error>>))
    ensures
        applies_entity(payloads@, entity, world, *entities, applied.1@, applied.0),
{
    let mut failures: Vec<ApplyError<P::Error>> = Vec::new();
    let mut here = world;
    let mut attribute: usize = 0;
    while attribute < payloads.len()
        invariant
            attribute <= payloads.len(),
            applies_entity(
                payloads@.take(attribute as int),
                entity,
                world,
                *entities,
                failures@,
                here,
            ),
        decreases payloads.len() - attribute,
    {
        let ghost earlier = failures@;
        let ghost between = here;
        let ghost seen = payloads@.take(attribute + 1);
        proof {
            assert(seen.drop_last() == payloads@.take(attribute as int));
            assert(seen.last() == payloads@[attribute as int]);
        }
        let (next, outcome) = payloads[attribute].add_to_entity(entity, here, entities);
        here = next;
        match outcome {
            Ok(unit) => {
                proof {
                    assert(unit == ());
                    assert(applied(seen.last(), entity, between, *entities, here));
                }
            },
            Err(error) => {
                failures.push(ApplyError { attribute, error });
                proof {
                    assert(failures@.drop_last() == earlier);
                    assert(rejected(seen.last(), entity, between, *entities, error, here));
                }
            },
        }
        proof {
            assert(applies_next(
                seen.last(),
                entity,
                between,
                *entities,
                here,
                seen.len() - 1,
                earlier,
                failures@,
            ));
        }
        attribute += 1;
    }
    proof {
        assert(payloads@.take(payloads@.len() as int) == payloads@);
    }
    (here, failures)
}

impl<S: SerializeDynamic, R, U> PrefabLoaderSystem<S, R, U> {
    /// A loader system for the types in `serializer_map`: no entity waits
    /// for a prefab yet and the first tag is zero.
    pub fn new(serializer_map: SerializerMap<S>, accessor: DynamicPrefabAccessor<R, U>) -> (system:
        Self)
        ensures
            system@.registry == serializer_map@,
            system@.accessor == accessor@,
            system@.pending == Set::<u32>::empty(),
            system@.finished == Seq::<u32>::empty(),
            system@.next_tag == 0,
    {
        PrefabLoaderSystem {
            serializer_map,
            accessor,
            finished: Vec::new(),
            to_process: HashSet::new(),
            next_tag: 0,
        }
    }

    /// What the scheduler has to know about the resources this system
    /// touches.
    pub fn accessor(&self) -> (accessor: &DynamicPrefabAccessor<R, U>)
        ensures
            accessor@ == self@.accessor,
    {
        &self.accessor
    }

    /// The tag that the next new prefab gets.
    pub fn next_tag(&self) -> (tag: u64)
        ensures
            tag == self@.next_tag,
    {
        self.next_tag
    }

    /// One pass over a prefab that is being loaded.
    ///
    /// The first pass gives the prefab its tag and resolves its data; the
    /// last result lists what was dropped then, entity by entity. A pass
    /// over a prefab that has been through that changes neither its tag
    /// nor its payloads, and drops nothing. The world comes back as the
    /// pass leaves it.
    pub fn process<W, F: Fn(&<S::Data as PrefabPayload>::Progress) -> Completion>(
        &mut self,
        intermediate: IntermediateDynamicPrefab<S::Data>,
        progress: <S::Data as PrefabPayload>::Progress,
        world: W,
        complete: F,
    ) -> (result: (
        W,
        Result<ProcessingState<S::Data>, ProcessingError<S::Data>>,
        Vec<Vec<DroppedAttribute<<S::Data as PrefabPayload>::Error>>>,
    )) where S::Data: DynamicPrefabData<W>
        requires
            intermediate@.tag is None ==> old(self)@.next_tag < u64::MAX,
            forall|counter: &<S::Data as PrefabPayload>::Progress|
                call_requires(complete, (counter,)),
        ensures
            final(self)@.registry == old(self)@.registry,
            final(self)@.accessor == old(self)@.accessor,
            final(self)@.pending == old(self)@.pending,
            final(self)@.finished == old(self)@.finished,
            final(self)@.next_tag == old(self)@.next_tag + (if intermediate@.tag is None {
                1int
            } else {
                0int
            }),
            processed(
                old(self)@.registry,
                old(self)@.next_tag,
                intermediate@,
                progress,
                world,
                complete,
                result.1,
                rows(result.2),
                result.0,
            ),
    {
        let ghost before = intermediate@;
        let mut intermediate = intermediate;

        // Create a tag for the prefab.
        if intermediate.assign_tag(self.next_tag) {
            self.next_tag += 1;
        }
        let ghost tag = intermediate@.tag->Some_0;

        // Deserialize the intermediate data into the concrete prefab data.
        let (intermediate, dropped) = intermediate.deserialize(&self.serializer_map);
        let ghost typed = intermediate@.entities->Typed_0;
        assert(resolved_data(self@.registry, before.entities, typed, rows(dropped)));

        let (world, intermediate) = if !intermediate.loading() {
            let (left, started) = intermediate.load_sub_assets(progress, world);
            match started {
                Err(error) => {
                    return (left, Err(ProcessingError::StartingSubAssets(error)), dropped);
                },
                Ok((intermediate, requested)) => {
                    let ghost loaded = (
                        intermediate@.entities->Typed_0,
                        intermediate@.counter->Some_0,
                    );
                    assert(triggers(typed, progress, world, loaded, left, requested));
                    if !requested {
                        let prefab = DynamicPrefab::from(intermediate);
                        let outcome = Ok(ProcessingState::Loaded(prefab));
                        proof {
                            let done = outcome->Ok_0->Loaded_0;
                            assert(triggers(
                                typed,
                                progress,
                                world,
                                (done@.entities, loaded.1),
                                left,
                                false,
                            ));
                            assert(triggered(tag, typed, progress, world, complete, outcome, left));
                        }
                        return (left, outcome, dropped);
                    }
                    (left, intermediate)
                },
            }
        } else {
            (world, intermediate)
        };
        let ghost loaded = (intermediate@.entities->Typed_0, intermediate@.counter->Some_0);

        let result = match complete(intermediate.progress()) {
            Completion::Complete => Ok(ProcessingState::Loaded(DynamicPrefab::from(intermediate))),
            Completion::Failed => Err(ProcessingError::SubAssetFailed(intermediate.into_progress())),
            Completion::Loading => Ok(ProcessingState::Loading(intermediate)),
        };
        assert(settled(tag, loaded.0, loaded.1, complete, result));
        (world, result, dropped)
    }

    /// Notes that the entity with the identifier `id` was given a
    /// reference to a prefab, so that it waits to be instantiated.
    pub fn mark_inserted(&mut self, id: u32)
        ensures
            final(self)@.pending == old(self)@.pending.insert(id),
            final(self)@.registry == old(self)@.registry,
            final(self)@.accessor == old(self)@.accessor,
            final(self)@.finished == old(self)@.finished,
            final(self)@.next_tag == old(self)@.next_tag,
    {
        self.to_process.insert(id);
    }

    /// Takes note of what the storage of prefab references reported since
    /// the last tick: every entity that was given a reference waits to be
    /// instantiated from now on. Other events change nothing.
    pub fn read_events(&mut self, events: &Vec<ComponentEvent>)
        ensures
            final(self)@.pending == old(self)@.pending.union(inserted(events@)),
            final(self)@.registry == old(self)@.registry,
            final(self)@.accessor == old(self)@.accessor,
            final(self)@.finished == old(self)@.finished,
            final(self)@.next_tag == old(self)@.next_tag,
    {
        let ghost waiting = self.to_process@;
        let mut index: usize = 0;
        while index < events.len()
            invariant
                index <= events.len(),
                self.serializer_map == old(self).serializer_map,
                self.accessor == old(self).accessor,
                self.finished == old(self).finished,
                self.next_tag == old(self).next_tag,
                self.to_process@ == waiting.union(inserted(events@.take(index as int))),
            decreases events.len() - index,
        {
            let ghost seen = events@.take(index as int);
            let ghost next = events@.take(index + 1);
            if let ComponentEvent::Inserted(id) = events[index] {
                self.to_process.insert(id);
            }
            proof {
                assert forall|id: u32| inserted(next).contains(id) <==> inserted(seen).contains(id)
                    || events@[index as int] == ComponentEvent::Inserted(id) by {
                    if inserted(seen).contains(id) {
                        let k = choose|k: int|
                            0 <= k < seen.len() && #[trigger] seen[k] == ComponentEvent::Inserted(
                                id,
                            );
                        assert(next[k] == ComponentEvent::Inserted(id));
                    }
                    if events@[index as int] == ComponentEvent::Inserted(id) {
                        assert(next[index as int] == ComponentEvent::Inserted(id));
                    }
                    if inserted(next).contains(id) {
                        let k = choose|k: int|
                            0 <= k < next.len() && #[trigger] next[k] == ComponentEvent::Inserted(
                                id,
                            );
                        if k < index {
                            assert(seen[k] == ComponentEvent::Inserted(id));
                        }
                    }
                }
                assert(self.to_process@ =~= waiting.union(inserted(next)));
            }
            index += 1;
        }
        proof {
            assert(events@.take(events@.len() as int) == events@);
            assert(inserted(events@.take(0)) =~= Set::<u32>::empty());
        }
    }

    /// Check if the entity with the identifier `id` waits for its prefab.
    pub fn pending(&self, id: u32) -> (pending: bool)
        ensures
            pending == self@.pending.contains(id),
    {
        self.to_process.contains(&id)
    }

    /// Instantiates the loaded prefab that the entity `root`, with the
    /// identifier `root_id`, holds a reference to.
    ///
    /// Nothing is done for an entity that does not wait for a prefab: the
    /// world comes back as it is. Otherwise the entity is noted as
    /// finished, the entities of the prefab are made, and then every
    /// payload is applied to its entity.
    pub fn instantiate<W, C: Fn(W, DynamicPrefabTag) -> (W, <S::Data as PrefabPayload>::Entity)>(
        &mut self,
        root: <S::Data as PrefabPayload>::Entity,
        root_id: u32,
        prefab: &DynamicPrefab<S::Data>,
        world: W,
        create: C,
    ) -> (instantiation: (W, Option<Instantiation<S::Data>>)) where S::Data: DynamicPrefabData<W>
        requires
            forall|world: W, tag: DynamicPrefabTag| call_requires(create, (world, tag)),
        ensures
            final(self)@.registry == old(self)@.registry,
            final(self)@.accessor == old(self)@.accessor,
            final(self)@.pending == old(self)@.pending,
            final(self)@.next_tag == old(self)@.next_tag,
            !old(self)@.pending.contains(root_id) ==> {
                &&& instantiation.1 is None
                &&& instantiation.0 == world
                &&& final(self)@.finished == old(self)@.finished
            },
            old(self)@.pending.contains(root_id) ==> {
                &&& final(self)@.finished == old(self)@.finished.push(root_id)
                &&& instantiation.1 matches Some(made)
                &&& instantiates(
                    prefab@,
                    root,
                    world,
                    create,
                    made.entities,
                    rows(made.failures),
                    instantiation.0,
                )
            },
    {
        if !self.to_process.contains(&root_id) {
            return (world, None);
        }
        self.finished.push(root_id);

        // create entities
        let count = prefab.len();
        let mut here = world;
        let mut entities: Vec<<S::Data as PrefabPayload>::Entity> = Vec::new();
        entities.push(root);
        proof {
            assert(entities@.skip(1).len() == 0);
        }
        let mut record: usize = 1;
        while record < count
            invariant
                1 <= record,
                record == 1 || record <= count,
                count == prefab@.entities.len(),
                entities@.len() == record,
                entities@[0] == root,
                forall|world: W, tag: DynamicPrefabTag| call_requires(create, (world, tag)),
                creates_rest(prefab@.tag, world, create, entities@, here),
            decreases count - record,
        {
            let ghost made = entities@.skip(1);
            let ghost between = here;
            let (next, new_entity) = create(here, DynamicPrefabTag::new(prefab.tag()));
            here = next;
            entities.push(new_entity);
            proof {
                assert(entities@.skip(1).drop_last() == made);
                assert(entities@.skip(1).last() == new_entity);
                assert(call_ensures(
                    create,
                    (between, DynamicPrefabTag::of(prefab@.tag)),
                    (here, entities@.skip(1).last()),
                ));
            }
            record += 1;
        }
        let ghost created = here;

        let mut failures: Vec<Vec<ApplyError<<S::Data as PrefabPayload>::Error>>> = Vec::new();
        let mut index: usize = 0;
        while index < count
            invariant
                index <= count,
                count == prefab@.entities.len(),
                entities@.len() == (if count == 0 {
                    1
                } else {
                    count as int
                }),
                failures@.len() == index,
                applies_all(
                    prefab@.entities.take(index as int),
                    entities,
                    created,
                    rows(failures),
                    here,
                ),
            decreases count - index,
        {
            let ghost earlier = rows(failures);
            let ghost between = here;
            let ghost seen = prefab@.entities.take(index + 1);
            let (next, failed) = apply_entity(prefab.entity(index), entities[index], here, &entities);
            here = next;
            failures.push(failed);
            proof {
                assert(seen.drop_last() == prefab@.entities.take(index as int));
                assert(seen.last() == prefab@.entities[index as int]);
                assert(rows(failures).drop_last() == earlier);
                assert(rows(failures).last() == failed@);
                assert(applies_record(
                    seen.last(),
                    entities@[seen.len() - 1],
                    between,
                    entities,
                    rows(failures).last(),
                    here,
                ));
            }
            index += 1;
        }
        proof {
            assert(prefab@.entities.take(count as int) == prefab@.entities);
        }
        (here, Some(Instantiation { entities, failures }))
    }

    /// Ends a pass over the waiting entities: those instantiated since the
    /// last end of a pass wait no longer.
    pub fn end_pass(&mut self)
        ensures
            forall|id: u32|
                #[trigger] final(self)@.pending.contains(id) <==> old(self)@.pending.contains(id)
                    && !old(self)@.finished.contains(id),
            final(self)@.finished == Seq::<u32>::empty(),
            final(self)@.registry == old(self)@.registry,
            final(self)@.accessor == old(self)@.accessor,
            final(self)@.next_tag == old(self)@.next_tag,
    {
        let ghost waiting = self.to_process@;
        let ghost done = self.finished@;
        while self.finished.len() > 0
            invariant
                self.serializer_map == old(self).serializer_map,
                self.accessor == old(self).accessor,
                self.next_tag == old(self).next_tag,
                self.finished@ == done.take(self.finished@.len() as int),
                self.finished@.len() <= done.len(),
                forall|id: u32|
                    #[trigger] self.to_process@.contains(id) <==> waiting.contains(id) && !done.skip(
                        self.finished@.len() as int,
                    ).contains(id),
            decreases self.finished.len(),
        {
            let ghost n = self.finished@.len() as int;
            let ghost before = self.to_process@;
            let id = self.finished.pop().unwrap();
            self.to_process.remove(&id);
            proof {
                assert(id == done[n - 1]);
                assert(self.finished@ == done.take(n - 1));
                let tail = done.skip(n - 1);
                let rest = done.skip(n);
                assert(tail.drop_first() == rest);
                assert(tail[0] == id);
                assert(tail.contains(id));
                assert(self.to_process@ == before.remove(id));
                assert forall|other: u32|
                    self.to_process@.contains(other) <==> waiting.contains(other)
                        && !tail.contains(other) by {
                    assert(before.contains(other) <==> waiting.contains(other) && !rest.contains(
                        other,
                    ));
                    if rest.contains(other) {
                        let k = choose|k: int| 0 <= k < rest.len() && rest[k] == other;
                        assert(tail[k + 1] == other);
                    }
                    if tail.contains(other) && other != id {
                        let k = choose|k: int| 0 <= k < tail.len() && tail[k] == other;
                        assert(rest[k - 1] == other);
                    }
                }
            }
        }
        proof {
            assert(self.finished@.len() == 0);
            assert(done.skip(0) == done);
        }
    }
}



/// Applying the payloads of the entity records reports on every record:
/// `failures` has one row for each record.
pub proof fn lemma_every_record_is_reported<W, P: DynamicPrefabData<W>>(
    records: Seq<Seq<P>>,
    entities: Vec<P::Entity>,
    world: W,
    failures: Seq<Seq<ApplyError<P::Error>>>,
    left: W,
)
    requires
        applies_all(records, entities, world, failures, left),
    ensures
        failures.len() == records.len(),
    decreases records.len(),
{
    if records.len() > 0 {
        let between = choose|between: W|
            {
                &&& applies_all(
                    records.drop_last(),
                    entities,
                    world,
                    failures.drop_last(),
                    between,
                )
                &&& #[trigger] applies_record(
                    records.last(),
                    entities@[records.len() - 1],
                    between,
                    entities,
                    failures.last(),
                    left,
                )
            };
        lemma_every_record_is_reported(
            records.drop_last(),
            entities,
            world,
            failures.drop_last(),
            between,
        );
    }
}

/// The payloads of the first entity record are the first to be applied,
/// and they are applied to the first entity: to the world as it was
/// before anything was applied.
pub proof fn lemma_first_record_is_applied_first<W, P: DynamicPrefabData<W>>(
    records: Seq<Seq<P>>,
    entities: Vec<P::Entity>,
    world: W,
    failures: Seq<Seq<ApplyError<P::Error>>>,
    left: W,
)
    requires
        records.len() >= 1,
        applies_all(records, entities, world, failures, left),
    ensures
        failures.len() == records.len(),
        exists|after_root: W| #[trigger]
            applies_record(records[0], entities@[0], world, entities, failures[0], after_root),
    decreases records.len(),
{
    lemma_every_record_is_reported(records, entities, world, failures, left);
    let between = choose|between: W|
        {
            &&& applies_all(records.drop_last(), entities, world, failures.drop_last(), between)
            &&& #[trigger] applies_record(
                records.last(),
                entities@[records.len() - 1],
                between,
                entities,
                failures.last(),
                left,
            )
        };
    if records.len() == 1 {
        assert(applies_record(records[0], entities@[0], world, entities, failures[0], left));
    } else {
        lemma_first_record_is_applied_first(
            records.drop_last(),
            entities,
            world,
            failures.drop_last(),
            between,
        );
        let after_root = choose|after_root: W| #[trigger]
            applies_record(
                records.drop_last()[0],
                entities@[0],
                world,
                entities,
                failures.drop_last()[0],
                after_root,
            );
        assert(records.drop_last()[0] == records[0]);
        assert(failures.drop_last()[0] == failures[0]);
        assert(applies_record(records[0], entities@[0], world, entities, failures[0], after_root));
    }
}

/// Instantiating a prefab with at least one entity record gives one
/// entity for each record, and the first of them is the entity that held
/// the reference to the prefab: it is not made anew. The other entities
/// are made with the prefab's tag, and when they are made, the payloads
/// of the first record are the first to be applied, to the root.
pub proof fn lemma_instantiation_reuses_root<W, P: DynamicPrefabData<W>, C: Fn(
    W,
    DynamicPrefabTag,
) -> (W, P::Entity)>(
    prefab: PrefabView<P>,
    root: P::Entity,
    world: W,
    create: C,
    entities: Vec<P::Entity>,
    failures: Seq<Seq<ApplyError<P::Error>>>,
    left: W,
)
    requires
        prefab.entities.len() >= 1,
        instantiates(prefab, root, world, create, entities, failures, left),
    ensures
        entities@.len() == prefab.entities.len(),
        failures.len() == prefab.entities.len(),
        entities@[0] == root,
        exists|made: W, after_root: W|
            {
                &&& creates_rest(prefab.tag, world, create, entities@, made)
                &&& #[trigger] applies_record(
                    prefab.entities[0],
                    root,
                    made,
                    entities,
                    failures[0],
                    after_root,
                )
            },
{
    let made = choose|made: W|
        {
            &&& #[trigger] creates_rest(prefab.tag, world, create, entities@, made)
            &&& applies_all(prefab.entities, entities, made, failures, left)
        };
    lemma_first_record_is_applied_first(prefab.entities, entities, made, failures, left);
    let after_root = choose|after_root: W| #[trigger]
        applies_record(prefab.entities[0], entities@[0], made, entities, failures[0], after_root);
    assert(applies_record(prefab.entities[0], root, made, entities, failures[0], after_root));
}

/// Applying the payloads of a record reports no more failures than there
/// are payloads, each for a payload of the record and none twice.
pub proof fn lemma_failures_name_payloads<W, P: DynamicPrefabData<W>>(
    payloads: Seq<P>,
    entity: P::Entity,
    world: W,
    entities: Vec<P::Entity>,
    failures: Seq<ApplyError<P::Error>>,
    left: W,
)
    requires
        applies_entity(payloads, entity, world, entities, failures, left),
    ensures
        failures.len() <= payloads.len(),
        forall|f: int| 0 <= f < failures.len() ==> (#[trigger] failures[f]).attribute < payloads.len(),
        forall|f: int, g: int|
            0 <= f < g < failures.len() ==> (#[trigger] failures[f]).attribute < (
            #[trigger] failures[g]).attribute,
    decreases payloads.len(),
{
    if payloads.len() > 0 {
        let (between, earlier) = choose|between: W, earlier: Seq<ApplyError<P::Error>>|
            {
                &&& applies_entity(payloads.drop_last(), entity, world, entities, earlier, between)
                &&& #[trigger] applies_next(
                    payloads.last(),
                    entity,
                    between,
                    entities,
                    left,
                    payloads.len() - 1,
                    earlier,
                    failures,
                )
            };
        lemma_failures_name_payloads(payloads.drop_last(), entity, world, entities, earlier, between);
        if failures != earlier {
            assert forall|f: int| 0 <= f < failures.len() implies (
            #[trigger] failures[f]).attribute < payloads.len() by {
                if f < earlier.len() {
                    assert(failures[f] == earlier[f]);
                }
            }
            assert forall|f: int, g: int| 0 <= f < g < failures.len() implies (
            #[trigger] failures[f]).attribute < (#[trigger] failures[g]).attribute by {
                assert(failures[f] == earlier[f]);
                if g < earlier.len() {
                    assert(failures[g] == earlier[g]);
                }
            }
        }
    }
}

/// The tag of the prefab in `outcome`, if there is a prefab in it.
pub open spec fn outcome_tag<P: PrefabPayload>(
    outcome: Result<ProcessingState<P>, ProcessingError<P>>,
) -> Option<u64> {
    match outcome {
        Ok(ProcessingState::Loaded(prefab)) => Some(prefab@.tag),
        Ok(ProcessingState::Loading(prefab)) => prefab@.tag,
        Err(_) => None,
    }
}

/// The first pass over a prefab gives it the next tag; every later pass
/// leaves it the tag it has.
pub proof fn lemma_pass_assigns_tag_once<W, S: SerializeDynamic, F: Fn(
    &<S::Data as PrefabPayload>::Progress,
) -> Completion>(
    registry: Map<u128, S>,
    next_tag: u64,
    before: IntermediateView<S::Data>,
    progress: <S::Data as PrefabPayload>::Progress,
    world: W,
    complete: F,
    outcome: Result<ProcessingState<S::Data>, ProcessingError<S::Data>>,
    dropped: Seq<Seq<DroppedAttribute<<S::Data as PrefabPayload>::Error>>>,
    left: W,
) where S::Data: DynamicPrefabData<W>
    requires
        processed(registry, next_tag, before, progress, world, complete, outcome, dropped, left),
        outcome is Ok,
    ensures
        before.tag is None ==> outcome_tag(outcome) == Some(next_tag),
        before.tag is Some ==> outcome_tag(outcome) == before.tag,
{
}

/// Two prefabs that get their tags from different values of the counter
/// get different tags: since the counter goes up by one with every tag it
/// gives out, a tag names one loaded prefab.
pub proof fn lemma_tags_are_unique<W, S: SerializeDynamic, F: Fn(
    &<S::Data as PrefabPayload>::Progress,
) -> Completion>(
    registry: Map<u128, S>,
    complete: F,
    first_tag: u64,
    first: IntermediateView<S::Data>,
    first_progress: <S::Data as PrefabPayload>::Progress,
    first_world: W,
    first_outcome: Result<ProcessingState<S::Data>, ProcessingError<S::Data>>,
    first_dropped: Seq<Seq<DroppedAttribute<<S::Data as PrefabPayload>::Error>>>,
    first_left: W,
    second_tag: u64,
    second: IntermediateView<S::Data>,
    second_progress: <S::Data as PrefabPayload>::Progress,
    second_world: W,
    second_outcome: Result<ProcessingState<S::Data>, ProcessingError<S::Data>>,
    second_dropped: Seq<Seq<DroppedAttribute<<S::Data as PrefabPayload>::Error>>>,
    second_left: W,
) where S::Data: DynamicPrefabData<W>
    requires
        first.tag is None,
        second.tag is None,
        first_tag != second_tag,
        processed(
            registry,
            first_tag,
            first,
            first_progress,
            first_world,
            complete,
            first_outcome,
            first_dropped,
            first_left,
        ),
        processed(
            registry,
            second_tag,
            second,
            second_progress,
            second_world,
            complete,
            second_outcome,
            second_dropped,
            second_left,
        ),
        first_outcome is Ok,
        second_outcome is Ok,
    ensures
        outcome_tag(first_outcome) is Some,
        outcome_tag(second_outcome) is Some,
        outcome_tag(first_outcome) != outcome_tag(second_outcome),
{
    lemma_pass_assigns_tag_once(
        registry,
        first_tag,
        first,
        first_progress,
        first_world,
        complete,
        first_outcome,
        first_dropped,
        first_left,
    );
    lemma_pass_assigns_tag_once(
        registry,
        second_tag,
        second,
        second_progress,
        second_world,
        complete,
        second_outcome,
        second_dropped,
        second_left,
    );
}

/// A pass over a prefab that has its tag and whose data is typed neither
/// resolves anything again nor changes the tag: nothing is dropped, and
/// the prefab that comes out carries the tag it came in with. If its
/// nested loads had been triggered before, its payloads are unchanged
/// too, and so is the world.
pub proof fn lemma_later_pass_keeps_tag_and_data<W, S: SerializeDynamic, F: Fn(
    &<S::Data as PrefabPayload>::Progress,
) -> Completion>(
    registry: Map<u128, S>,
    next_tag: u64,
    before: IntermediateView<S::Data>,
    progress: <S::Data as PrefabPayload>::Progress,
    world: W,
    complete: F,
    outcome: Result<ProcessingState<S::Data>, ProcessingError<S::Data>>,
    dropped: Seq<Seq<DroppedAttribute<<S::Data as PrefabPayload>::Error>>>,
    left: W,
) where S::Data: DynamicPrefabData<W>
    requires
        before.tag is Some,
        before.entities is Typed,
        processed(registry, next_tag, before, progress, world, complete, outcome, dropped, left),
    ensures
        dropped.len() == 0,
        outcome matches Ok(ProcessingState::Loading(prefab)) ==> prefab@.tag == before.tag,
        outcome matches Ok(ProcessingState::Loaded(prefab)) ==> prefab@.tag == before.tag->Some_0,
        before.counter is Some ==> {
            &&& left == world
            &&& outcome matches Ok(ProcessingState::Loading(prefab)) ==> prefab@.entities
                == before.entities && prefab@.counter == before.counter
            &&& outcome matches Ok(ProcessingState::Loaded(prefab)) ==> prefab@.entities
                == before.entities->Typed_0
        },
{
}

/// Once the tracker of a prefab can only report a failed nested load, a
/// pass over the prefab fails it and hands the tracker back: no loaded
/// prefab comes out, so there is nothing to instantiate.
pub proof fn lemma_failed_nested_load_fails_prefab<W, S: SerializeDynamic, F: Fn(
    &<S::Data as PrefabPayload>::Progress,
) -> Completion>(
    registry: Map<u128, S>,
    next_tag: u64,
    before: IntermediateView<S::Data>,
    progress: <S::Data as PrefabPayload>::Progress,
    world: W,
    complete: F,
    outcome: Result<ProcessingState<S::Data>, ProcessingError<S::Data>>,
    dropped: Seq<Seq<DroppedAttribute<<S::Data as PrefabPayload>::Error>>>,
    left: W,
) where S::Data: DynamicPrefabData<W>
    requires
        before.counter is Some,
        forall|answer: Completion|
            call_ensures(complete, (&before.counter->Some_0,), answer) ==> answer is Failed,
        processed(registry, next_tag, before, progress, world, complete, outcome, dropped, left),
    ensures
        outcome matches Err(ProcessingError::SubAssetFailed(tracker)) && Some(tracker)
            == before.counter,
        left == world,
{
}

/// Attributes that cannot be resolved do not hold a prefab up: when no
/// payload has anything to load, the first pass over a freshly parsed
/// prefab completes it, whatever was dropped. The loaded prefab has one
/// entity for each entity of the source, its tag is the next tag, and its
/// payloads are those the data resolved to, as they came back from being
/// handed the tracker.
pub proof fn lemma_unresolved_attributes_do_not_block<W, S: SerializeDynamic, F: Fn(
    &<S::Data as PrefabPayload>::Progress,
) -> Completion>(
    registry: Map<u128, S>,
    next_tag: u64,
    before: IntermediateView<S::Data>,
    progress: <S::Data as PrefabPayload>::Progress,
    world: W,
    complete: F,
    outcome: Result<ProcessingState<S::Data>, ProcessingError<S::Data>>,
    dropped: Seq<Seq<DroppedAttribute<<S::Data as PrefabPayload>::Error>>>,
    left: W,
) -> (typed: Seq<Seq<S::Data>>) where S::Data: DynamicPrefabData<W>
    requires
        before.tag is None,
        before.entities is Untyped,
        before.counter is None,
        nothing_to_load::<W, S::Data>(),
        processed(registry, next_tag, before, progress, world, complete, outcome, dropped, left),
    ensures
        resolves(registry, before.entities->Untyped_0, typed, dropped),
        outcome matches Ok(ProcessingState::Loaded(prefab)) && prefab@.tag == next_tag
            && prefab@.entities.len() == before.entities->Untyped_0.len() && (exists|
            counted: <S::Data as PrefabPayload>::Progress,
        | #[trigger]
            triggers(typed, progress, world, (prefab@.entities, counted), left, false)),
{
    let typed = choose|typed: Seq<Seq<S::Data>>|
        {
            &&& #[trigger] resolved_data(registry, before.entities, typed, dropped)
            &&& triggered(next_tag, typed, progress, world, complete, outcome, left)
        };
    if outcome is Err && outcome->Err_0 is StartingSubAssets {
        let error = outcome->Err_0->StartingSubAssets_0;
        lemma_quiet_prefab_does_not_fail(typed, progress, world, error, left);
    }
    if exists|loaded: (Seq<Seq<S::Data>>, <S::Data as PrefabPayload>::Progress)| #[trigger]
        triggers(typed, progress, world, loaded, left, true) {
        let loaded = choose|loaded: (Seq<Seq<S::Data>>, <S::Data as PrefabPayload>::Progress)|
            #[trigger] triggers(typed, progress, world, loaded, left, true);
        lemma_quiet_prefab_requests_nothing(
            typed,
            progress,
            world,
            loaded.0,
            loaded.1,
            left,
            true,
        );
    }
    let prefab = outcome->Ok_0->Loaded_0;
    let counted = choose|counted: <S::Data as PrefabPayload>::Progress| #[trigger]
        triggers(typed, progress, world, (prefab@.entities, counted), left, false);
    lemma_sub_assets_keep_shape(typed, progress, world, prefab@.entities, counted, left, false);
    typed
}

/// The detour through the registry changes nothing about a payload.
///
/// Take a prefab of one entity with one attribute, whose identifier is
/// registered and whose value the deserializer cannot reject. Resolving
/// it gives exactly one payload, and that is a payload the deserializer
/// gives for the value. Instantiating the prefab makes no new entity and
/// applies that payload to the root entity, once, in the world as it was
/// handed in: the world it leaves and the failure it reports, if any, are
/// what applying the payload to the root directly gives.
pub proof fn lemma_resolution_preserves_payload<W, S: SerializeDynamic, C: Fn(
    W,
    DynamicPrefabTag,
) -> (W, <S::Data as PrefabPayload>::Entity)>(
    registry: Map<u128, S>,
    uuid: u128,
    value: serde_json::Value,
    typed: Seq<Seq<S::Data>>,
    dropped: Seq<Seq<DroppedAttribute<<S::Data as PrefabPayload>::Error>>>,
    tag: u64,
    root: <S::Data as PrefabPayload>::Entity,
    world: W,
    create: C,
    entities: Vec<<S::Data as PrefabPayload>::Entity>,
    failures: Seq<Seq<ApplyError<<S::Data as PrefabPayload>::Error>>>,
    left: W,
) where S::Data: DynamicPrefabData<W>
    requires
        registry.contains_key(uuid),
        accepts(registry[uuid], value),
        resolves(registry, seq![seq![(uuid, value)]], typed, dropped),
        instantiates(
            (PrefabView { tag, entities: typed }),
            root,
            world,
            create,
            entities,
            failures,
            left,
        ),
    ensures
        typed.len() == 1,
        typed[0].len() == 1,
        dropped[0].len() == 0,
        call_ensures(
            S::instantiate,
            (&registry[uuid], value),
            Ok::<S::Data, <S::Data as PrefabPayload>::Error>(typed[0][0]),
        ),
        entities@ == seq![root],
        failures.len() == 1,
        failures[0].len() == 0 ==> applied(typed[0][0], root, world, entities, left),
        failures[0].len() != 0 ==> failures[0].len() == 1 && failures[0][0].attribute == 0
            && rejected(typed[0][0], root, world, entities, failures[0][0].error, left),
{
    let components = seq![(uuid, value)];
    let untyped = seq![components];
    assert(untyped[0] == components);
    assert(resolves_entity(registry, untyped[0], typed[0], dropped[0]));
    assert(components[0] == (uuid, value));
    lemma_acceptable_entity_resolves_in_full(registry, components, typed[0], dropped[0]);
    assert(components.len() == 1);
    assert(entities@ =~= seq![root]);

    let made = choose|made: W|
        {
            &&& #[trigger] creates_rest(tag, world, create, entities@, made)
            &&& applies_all(typed, entities, made, failures, left)
        };
    assert(entities@.skip(1).len() == 0);
    assert(made == world);

    lemma_every_record_is_reported(typed, entities, made, failures, left);
    let started = choose|started: W|
        {
            &&& applies_all(typed.drop_last(), entities, made, failures.drop_last(), started)
            &&& #[trigger] applies_record(
                typed.last(),
                entities@[typed.len() - 1],
                started,
                entities,
                failures.last(),
                left,
            )
        };
    assert(typed.drop_last().len() == 0);
    assert(started == made);

    let payloads = typed[0];
    assert(payloads.len() == 1);
    assert(applies_entity(payloads, root, world, entities, failures[0], left));
    let (between, earlier) = choose|
        between: W,
        earlier: Seq<ApplyError<<S::Data as PrefabPayload>::Error>>,
    |
        {
            &&& applies_entity(payloads.drop_last(), root, world, entities, earlier, between)
            &&& #[trigger] applies_next(
                payloads.last(),
                root,
                between,
                entities,
                left,
                payloads.len() - 1,
                earlier,
                failures[0],
            )
        };
    assert(payloads.drop_last().len() == 0);
    assert(between == world);
    assert(earlier.len() == 0);
    assert(payloads.last() == payloads[0]);
}

} // verus!

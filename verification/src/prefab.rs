//! The prefab asset: the capabilities a registered attribute type brings,
//! the two representations of a prefab's data, the pass that resolves the
//! first into the second against the registry, and the pass that triggers
//! the nested loads of the typed payloads.

use std::collections::HashMap;
use vstd::prelude::*;

verus! {

/// `serde_json::Value`: the raw value of one attribute as it was parsed.
/// The library never looks inside one; it only hands it to the
/// deserializer registered for the attribute's identifier.
#[verifier::external_type_specification]
#[verifier::external_body]
pub struct ExValue(serde_json::Value);

/// The registry: each registered identifier with the deserializer of its
/// type.
pub type SerializerMap<S> = HashMap<u128, S>;

/// The parsed representation of a prefab: for each entity, in the order of
/// the source data, its attributes as pairs of identifier and raw value.
pub type IntermediatePrefabData = Vec<Vec<(u128, serde_json::Value)>>;

/// The resolved representation of a prefab: for each entity its typed
/// payloads.
pub type TypedPrefabData<P> = Vec<Vec<P>>;

/// A typed payload: one attribute of one entity, ready to be applied.
pub trait PrefabPayload: Sized {
    /// What names an entity of the world.
    type Entity: Copy;

    /// The tracker of the nested loads of one prefab.
    type Progress;

    type Error;
}

/// What a typed payload does to a world of the type `W`.
///
/// A world and a tracker go into every call and come out of it again: the
/// payload hands back what it has made of them. The contracts of the
/// loader follow them from call to call, which is how they say in what
/// order the calls are made.
pub trait DynamicPrefabData<W>: PrefabPayload {
    /// Applies the payload to `entity`. `entities` holds every entity of
    /// the prefab being instantiated, the root first.
    fn add_to_entity(
        &self,
        entity: Self::Entity,
        world: W,
        entities: &Vec<Self::Entity>,
    ) -> (W, Result<(), Self::Error>);

    /// Requests the nested loads the payload needs, recording them against
    /// `progress`, and hands the payload back as it is afterwards. The
    /// answer is `true` if anything was requested.
    fn load_sub_assets(self, progress: Self::Progress, world: W) -> (
        Self,
        Self::Progress,
        W,
        Result<bool, Self::Error>,
    );
}

/// The deserializer of one registered type.
pub trait SerializeDynamic {
    type Data: PrefabPayload;

    /// Builds the typed payload from the raw value of an attribute.
    fn instantiate(&self, data: serde_json::Value) -> Result<
        Self::Data,
        <Self::Data as PrefabPayload>::Error,
    >;
}

/// Why an attribute did not make it into the typed representation.
#[derive(Debug, PartialEq, Eq)]
pub enum DropReason<E> {
    /// No type is registered under the attribute's identifier.
    Unregistered,
    /// The registered deserializer rejected the attribute's value.
    Malformed(E),
}

/// An attribute that was dropped while a prefab was resolved.
#[derive(Debug, PartialEq, Eq)]
pub struct DroppedAttribute<E> {
    /// Position of the attribute among those of its entity.
    pub attribute: usize,
    /// Identifier the attribute was filed under.
    pub uuid: u128,
    pub reason: DropReason<E>,
}

/// The rows of a nested vector, each as a sequence.
pub open spec fn rows<T>(data: Vec<Vec<T>>) -> Seq<Seq<T>> {
    Seq::new(data@.len(), |i: int| data@[i]@)
}

/// `typed` and `dropped` are what resolving the attributes `components` of
/// one entity against `registry` may give.
///
/// Going through the attributes in order: one whose identifier is not
/// registered is dropped as `Unregistered`; any other is handed to the
/// deserializer registered for it, and either the payload that came back
/// is appended to `typed`, or the error that came back is recorded in
/// `dropped` as `Malformed`.
pub open spec fn resolves_entity<S: SerializeDynamic>(
    registry: Map<u128, S>,
    components: Seq<(u128, serde_json::Value)>,
    typed: Seq<S::Data>,
    dropped: Seq<DroppedAttribute<<S::Data as PrefabPayload>::Error>>,
) -> bool
    decreases components.len(),
{
    if components.len() == 0 {
        typed.len() == 0 && dropped.len() == 0
    } else {
        let uuid = components.last().0;
        let value = components.last().1;
        let rest = components.drop_last();
        if !registry.contains_key(uuid) {
            &&& dropped.len() > 0
            &&& dropped.last().attribute == rest.len()
            &&& dropped.last().uuid == uuid
            &&& dropped.last().reason is Unregistered
            &&& resolves_entity(registry, rest, typed, dropped.drop_last())
        } else {
            ||| {
                &&& typed.len() > 0
                &&& call_ensures(
                    S::instantiate,
                    (&registry[uuid], value),
                    Ok::<S::Data, <S::Data as PrefabPayload>::Error>(typed.last()),
                )
                &&& resolves_entity(registry, rest, typed.drop_last(), dropped)
            }
            ||| {
                &&& dropped.len() > 0
                &&& dropped.last().attribute == rest.len()
                &&& dropped.last().uuid == uuid
                &&& dropped.last().reason matches DropReason::Malformed(e)
                &&& call_ensures(
                    S::instantiate,
                    (&registry[uuid], value),
                    Err::<S::Data, <S::Data as PrefabPayload>::Error>(e),
                )
                &&& resolves_entity(registry, rest, typed, dropped.drop_last())
            }
        }
    }
}

/// `typed` and `dropped` are what resolving every entity of `untyped`
/// against `registry` may give: entity by entity, in the same order.
pub open spec fn resolves<S: SerializeDynamic>(
    registry: Map<u128, S>,
    untyped: Seq<Seq<(u128, serde_json::Value)>>,
    typed: Seq<Seq<S::Data>>,
    dropped: Seq<Seq<DroppedAttribute<<S::Data as PrefabPayload>::Error>>>,
) -> bool {
    &&& typed.len() == untyped.len()
    &&& dropped.len() == untyped.len()
    &&& forall|i: int|
        0 <= i < untyped.len() ==> resolves_entity(
            registry,
            #[trigger] untyped[i],
            typed[i],
            dropped[i],
        )
}

/// Resolves the attributes of one entity against the registry.
///
/// The payloads come out in the order of their attributes; `dropped` lists
/// the attributes that were left out, in their order too, one entry each.
pub fn resolve_entity<S: SerializeDynamic>(
    components: Vec<(u128, serde_json::Value)>,
    serializer_map: &SerializerMap<S>,
) -> (resolved: (
    Vec<S::Data>,
    Vec<DroppedAttribute<<S::Data as PrefabPayload>::Error>>,
))
    ensures
        resolves_entity(serializer_map@, components@, resolved.0@, resolved.1@),
{
    let mut typed: Vec<S::Data> = Vec::new();
    let mut dropped: Vec<DroppedAttribute<<S::Data as PrefabPayload>::Error>> = Vec::new();
    let ghost all = components@;
    let count: usize = components.len();
    let mut attribute: usize = 0;
    for component in it: components
        invariant
            it.seq() == all,
            all.len() == count,
            attribute == it.index(),
            resolves_entity(serializer_map@, all.take(it.index() as int), typed@, dropped@),
    {
        let ghost before_typed = typed@;
        let ghost before_dropped = dropped@;
        proof {
            assert(all.take(it.index() + 1).drop_last() == all.take(it.index() as int));
        }
        let (uuid, value) = component;
        match serializer_map.get(&uuid) {
            None => {
                dropped.push(DroppedAttribute { attribute, uuid, reason: DropReason::Unregistered });
                proof {
                    assert(dropped@.drop_last() == before_dropped);
                }
            },
            Some(serializer) => {
                match serializer.instantiate(value) {
                    Ok(prefab_data) => {
                        typed.push(prefab_data);
                        proof {
                            assert(typed@.drop_last() == before_typed);
                        }
                    },
                    Err(err) => {
                        dropped.push(
                            DroppedAttribute { attribute, uuid, reason: DropReason::Malformed(err) },
                        );
                        proof {
                            assert(dropped@.drop_last() == before_dropped);
                        }
                    },
                }
            },
        }
        attribute += 1;
    }
    proof {
        assert(all.take(all.len() as int) == all);
    }
    (typed, dropped)
}

/// The deserializer `serializer` cannot reject `value`.
pub open spec fn accepts<S: SerializeDynamic>(serializer: S, value: serde_json::Value) -> bool {
    forall|outcome: Result<S::Data, <S::Data as PrefabPayload>::Error>|
        call_ensures(S::instantiate, (&serializer, value), outcome) ==> outcome is Ok
}

/// The last attribute of `components` became the last payload of `typed`.
pub open spec fn keeps_last<S: SerializeDynamic>(
    registry: Map<u128, S>,
    components: Seq<(u128, serde_json::Value)>,
    typed: Seq<S::Data>,
    dropped: Seq<DroppedAttribute<<S::Data as PrefabPayload>::Error>>,
) -> bool {
    &&& components.len() > 0
    &&& registry.contains_key(components.last().0)
    &&& typed.len() > 0
    &&& call_ensures(
        S::instantiate,
        (&registry[components.last().0], components.last().1),
        Ok::<S::Data, <S::Data as PrefabPayload>::Error>(typed.last()),
    )
    &&& resolves_entity(registry, components.drop_last(), typed.drop_last(), dropped)
}

/// Resolving an entity accounts for each of its attributes exactly once.
///
/// Every attribute ends up either as a payload or as one entry of
/// `dropped`. The entries of `dropped` are in the order of the attributes,
/// so no attribute is reported twice, and each names the position and the
/// identifier of its attribute. An entry says `Unregistered` exactly when
/// the identifier is not in the registry.
pub proof fn lemma_resolution_accounts_for_every_attribute<S: SerializeDynamic>(
    registry: Map<u128, S>,
    components: Seq<(u128, serde_json::Value)>,
    typed: Seq<S::Data>,
    dropped: Seq<DroppedAttribute<<S::Data as PrefabPayload>::Error>>,
)
    requires
        resolves_entity(registry, components, typed, dropped),
    ensures
        typed.len() + dropped.len() == components.len(),
        forall|d: int|
            0 <= d < dropped.len() ==> {
                &&& (#[trigger] dropped[d]).attribute < components.len()
                &&& dropped[d].uuid == components[dropped[d].attribute as int].0
                &&& dropped[d].reason is Unregistered <==> !registry.contains_key(dropped[d].uuid)
            },
        forall|d: int, e: int|
            0 <= d < e < dropped.len() ==> (#[trigger] dropped[d]).attribute < (
            #[trigger] dropped[e]).attribute,
    decreases components.len(),
{
    if components.len() > 0 {
        let uuid = components.last().0;
        let rest = components.drop_last();
        if !keeps_last(registry, components, typed, dropped) {
            let before = dropped.drop_last();
            lemma_resolution_accounts_for_every_attribute(registry, rest, typed, before);
            assert forall|d: int| 0 <= d < dropped.len() implies {
                &&& (#[trigger] dropped[d]).attribute < components.len()
                &&& dropped[d].uuid == components[dropped[d].attribute as int].0
                &&& dropped[d].reason is Unregistered <==> !registry.contains_key(dropped[d].uuid)
            } by {
                if d < before.len() {
                    assert(dropped[d] == before[d]);
                }
            }
            assert forall|d: int, e: int| 0 <= d < e < dropped.len() implies (
            #[trigger] dropped[d]).attribute < (#[trigger] dropped[e]).attribute by {
                assert(dropped[d] == before[d]);
                if e < before.len() {
                    assert(dropped[e] == before[e]);
                }
            }
        } else {
            let before = typed.drop_last();
            lemma_resolution_accounts_for_every_attribute(registry, rest, before, dropped);
        }
    }
}

/// An attribute whose identifier is not registered is dropped, and
/// reported exactly once, as unregistered: one entry of `dropped` names
/// its position, and no other does.
pub proof fn lemma_unregistered_attribute_is_reported_once<S: SerializeDynamic>(
    registry: Map<u128, S>,
    components: Seq<(u128, serde_json::Value)>,
    typed: Seq<S::Data>,
    dropped: Seq<DroppedAttribute<<S::Data as PrefabPayload>::Error>>,
    attribute: int,
) -> (entry: int)
    requires
        resolves_entity(registry, components, typed, dropped),
        0 <= attribute < components.len(),
        !registry.contains_key(components[attribute].0),
    ensures
        0 <= entry < dropped.len(),
        dropped[entry].attribute == attribute,
        dropped[entry].uuid == components[attribute].0,
        dropped[entry].reason is Unregistered,
        forall|other: int|
            0 <= other < dropped.len() && other != entry ==> (#[trigger] dropped[other]).attribute
                != attribute,
    decreases components.len(),
{
    lemma_resolution_accounts_for_every_attribute(registry, components, typed, dropped);
    let rest = components.drop_last();
    if attribute == components.len() - 1 {
        let entry = dropped.len() - 1;
        assert forall|other: int| 0 <= other < dropped.len() && other != entry implies (
        #[trigger] dropped[other]).attribute != attribute by {
            assert(dropped[other].attribute < dropped[entry].attribute);
        }
        entry
    } else {
        assert(rest[attribute] == components[attribute]);
        if !keeps_last(registry, components, typed, dropped) {
            let entry = lemma_unregistered_attribute_is_reported_once(
                registry,
                rest,
                typed,
                dropped.drop_last(),
                attribute,
            );
            assert(dropped[entry] == dropped.drop_last()[entry]);
            assert forall|other: int| 0 <= other < dropped.len() && other != entry implies (
            #[trigger] dropped[other]).attribute != attribute by {
                if other < dropped.len() - 1 {
                    assert(dropped[other] == dropped.drop_last()[other]);
                }
            }
            entry
        } else {
            lemma_unregistered_attribute_is_reported_once(
                registry,
                rest,
                typed.drop_last(),
                dropped,
                attribute,
            )
        }
    }
}

/// In a resolved prefab, an attribute whose identifier is not registered
/// is missing from the typed data of its entity and reported exactly once
/// among what was dropped from that entity; the entity keeps a payload for
/// every attribute that was not dropped.
pub proof fn lemma_unregistered_attribute_of_prefab_is_reported_once<S: SerializeDynamic>(
    registry: Map<u128, S>,
    untyped: Seq<Seq<(u128, serde_json::Value)>>,
    typed: Seq<Seq<S::Data>>,
    dropped: Seq<Seq<DroppedAttribute<<S::Data as PrefabPayload>::Error>>>,
    entity: int,
    attribute: int,
) -> (entry: int)
    requires
        resolves(registry, untyped, typed, dropped),
        0 <= entity < untyped.len(),
        0 <= attribute < untyped[entity].len(),
        !registry.contains_key(untyped[entity][attribute].0),
    ensures
        typed.len() == untyped.len(),
        typed[entity].len() + dropped[entity].len() == untyped[entity].len(),
        0 <= entry < dropped[entity].len(),
        dropped[entity][entry].attribute == attribute,
        dropped[entity][entry].uuid == untyped[entity][attribute].0,
        dropped[entity][entry].reason is Unregistered,
        forall|other: int|
            0 <= other < dropped[entity].len() && other != entry ==> (
            #[trigger] dropped[entity][other]).attribute != attribute,
{
    lemma_resolution_accounts_for_every_attribute(
        registry,
        untyped[entity],
        typed[entity],
        dropped[entity],
    );
    lemma_unregistered_attribute_is_reported_once(
        registry,
        untyped[entity],
        typed[entity],
        dropped[entity],
        attribute,
    )
}

/// An attribute whose identifier is registered and whose value the
/// deserializer cannot reject is never dropped, whatever becomes of the
/// attributes around it.
pub proof fn lemma_accepted_attribute_is_kept<S: SerializeDynamic>(
    registry: Map<u128, S>,
    components: Seq<(u128, serde_json::Value)>,
    typed: Seq<S::Data>,
    dropped: Seq<DroppedAttribute<<S::Data as PrefabPayload>::Error>>,
    attribute: int,
)
    requires
        resolves_entity(registry, components, typed, dropped),
        0 <= attribute < components.len(),
        registry.contains_key(components[attribute].0),
        accepts(registry[components[attribute].0], components[attribute].1),
    ensures
        forall|entry: int|
            0 <= entry < dropped.len() ==> (#[trigger] dropped[entry]).attribute != attribute,
    decreases components.len(),
{
    lemma_resolution_accounts_for_every_attribute(registry, components, typed, dropped);
    let rest = components.drop_last();
    let dropped_last = !keeps_last(registry, components, typed, dropped);
    if attribute == components.len() - 1 {
        if dropped_last {
            let error = dropped.last().reason->Malformed_0;
            assert(call_ensures(
                S::instantiate,
                (&registry[components.last().0], components.last().1),
                Err::<S::Data, <S::Data as PrefabPayload>::Error>(error),
            ));
        } else {
            lemma_resolution_accounts_for_every_attribute(
                registry,
                rest,
                typed.drop_last(),
                dropped,
            );
        }
    } else {
        assert(rest[attribute] == components[attribute]);
        if dropped_last {
            lemma_accepted_attribute_is_kept(
                registry,
                rest,
                typed,
                dropped.drop_last(),
                attribute,
            );
            assert forall|entry: int| 0 <= entry < dropped.len() implies (
            #[trigger] dropped[entry]).attribute != attribute by {
                if entry < dropped.len() - 1 {
                    assert(dropped[entry] == dropped.drop_last()[entry]);
                }
            }
        } else {
            lemma_accepted_attribute_is_kept(
                registry,
                rest,
                typed.drop_last(),
                dropped,
                attribute,
            );
        }
    }
}

/// With every identifier registered and every value acceptable, resolving
/// drops nothing: each attribute becomes the payload at its own position,
/// and that payload is one its deserializer gives for its value.
pub proof fn lemma_acceptable_entity_resolves_in_full<S: SerializeDynamic>(
    registry: Map<u128, S>,
    components: Seq<(u128, serde_json::Value)>,
    typed: Seq<S::Data>,
    dropped: Seq<DroppedAttribute<<S::Data as PrefabPayload>::Error>>,
)
    requires
        resolves_entity(registry, components, typed, dropped),
        forall|k: int|
            0 <= k < components.len() ==> registry.contains_key((#[trigger] components[k]).0)
                && accepts(registry[components[k].0], components[k].1),
    ensures
        dropped.len() == 0,
        typed.len() == components.len(),
        forall|k: int|
            0 <= k < components.len() ==> call_ensures(
                S::instantiate,
                (&registry[components[k].0], components[k].1),
                Ok::<S::Data, <S::Data as PrefabPayload>::Error>(#[trigger] typed[k]),
            ),
    decreases components.len(),
{
    if components.len() > 0 {
        let rest = components.drop_last();
        let last = components.len() - 1;
        assert(registry.contains_key(components[last].0));
        assert(accepts(registry[components[last].0], components[last].1));
        if dropped.len() > 0 && dropped.last().reason is Malformed {
            let error = dropped.last().reason->Malformed_0;
            if resolves_entity(registry, rest, typed, dropped.drop_last()) && call_ensures(
                S::instantiate,
                (&registry[components.last().0], components.last().1),
                Err::<S::Data, <S::Data as PrefabPayload>::Error>(error),
            ) {
                assert(false);
            }
        }
        assert forall|k: int| 0 <= k < rest.len() implies registry.contains_key(
            (#[trigger] rest[k]).0,
        ) && accepts(registry[rest[k].0], rest[k].1) by {
            assert(rest[k] == components[k]);
        }
        lemma_acceptable_entity_resolves_in_full(registry, rest, typed.drop_last(), dropped);
        assert forall|k: int| 0 <= k < components.len() implies call_ensures(
            S::instantiate,
            (&registry[components[k].0], components[k].1),
            Ok::<S::Data, <S::Data as PrefabPayload>::Error>(#[trigger] typed[k]),
        ) by {
            if k < last {
                assert(rest[k] == components[k]);
                assert(typed.drop_last()[k] == typed[k]);
            }
        }
    }
}

/// The data of a prefab in one of its two representations.
pub enum IntermediateDataState<P> {
    Untyped(IntermediatePrefabData),
    Typed(TypedPrefabData<P>),
}

impl<P: PrefabPayload> IntermediateDataState<P> {
    /// Resolves parsed data against the registry, once.
    ///
    /// Data that is already typed is handed back as it is, with nothing
    /// dropped: the deserializers are not run a second time. Parsed data
    /// becomes typed data with the same entities in the same order; row
    /// `i` of the second result lists what was dropped from entity `i`.
    pub fn deserialize<S: SerializeDynamic<Data = P>>(
        self,
        serializer_map: &SerializerMap<S>,
    ) -> (resolved: (Self, Vec<Vec<DroppedAttribute<P::Error>>>))
        ensures
            self is Typed ==> resolved.0 == self && resolved.1@.len() == 0,
            self matches IntermediateDataState::Untyped(untyped) ==> (resolved.0 matches IntermediateDataState::Typed(
                typed,
            ) && resolves(serializer_map@, rows(untyped), rows(typed), rows(resolved.1))),
    {
        let intermediate_data = match self {
            IntermediateDataState::Untyped(data) => data,
            IntermediateDataState::Typed(data) => {
                return (IntermediateDataState::Typed(data), Vec::new());
            },
        };
        let mut typed_data: Vec<Vec<P>> = Vec::new();
        let mut dropped: Vec<Vec<DroppedAttribute<P::Error>>> = Vec::new();
        let ghost all = intermediate_data@;
        for components in it: intermediate_data
            invariant
                it.seq() == all,
                typed_data@.len() == it.index(),
                dropped@.len() == it.index(),
                forall|i: int|
                    0 <= i < it.index() ==> resolves_entity(
                        serializer_map@,
                        (#[trigger] all[i])@,
                        typed_data@[i]@,
                        dropped@[i]@,
                    ),
        {
            let (typed, left_out) = resolve_entity(components, serializer_map);
            typed_data.push(typed);
            dropped.push(left_out);
        }
        proof {
            assert forall|i: int| 0 <= i < all.len() implies resolves_entity(
                serializer_map@,
                #[trigger] rows(intermediate_data)[i],
                rows(typed_data)[i],
                rows(dropped)[i],
            ) by {
                assert(resolves_entity(serializer_map@, all[i]@, typed_data@[i]@, dropped@[i]@));
            }
        }
        (IntermediateDataState::Typed(typed_data), dropped)
    }
}


/// Handed the tracker `progress` and the world `world`, the payload
/// `before` may come back as `after`, hand back the tracker `counted` and
/// the world `left`, and give the answer `answer`.
pub open spec fn answered<W, P: DynamicPrefabData<W>>(
    before: P,
    progress: P::Progress,
    world: W,
    after: P,
    counted: P::Progress,
    left: W,
    answer: bool,
) -> bool {
    call_ensures(
        <P as DynamicPrefabData<W>>::load_sub_assets,
        (before, progress, world),
        (after, counted, left, Ok::<bool, P::Error>(answer)),
    )
}

/// Handed the tracker `progress` and the world `world`, the payload may
/// fail with `error` and hand back the world `left`.
pub open spec fn refused<W, P: DynamicPrefabData<W>>(
    payload: P,
    progress: P::Progress,
    world: W,
    error: P::Error,
    left: W,
) -> bool {
    exists|gone: (P, P::Progress)| #[trigger]
        call_ensures(
            <P as DynamicPrefabData<W>>::load_sub_assets,
            (payload, progress, world),
            (gone.0, gone.1, left, Err::<bool, P::Error>(error)),
        )
}

/// One more payload answers: `requested` is `earlier`, or true if the
/// payload asked for a nested load.
pub open spec fn answers_next<W, P: DynamicPrefabData<W>>(
    before: P,
    progress: P::Progress,
    world: W,
    after: P,
    counted: P::Progress,
    left: W,
    earlier: bool,
    requested: bool,
) -> bool {
    ||| requested && answered(before, progress, world, after, counted, left, true)
    ||| requested == earlier && answered(before, progress, world, after, counted, left, false)
}

/// The payloads `after` are those of `before` after each of them, in
/// order, was handed the tracker and the world as the one before it left
/// them, and none failed. The first gets `progress` and `world`, the last
/// leaves `counted` and `left`; `requested` says whether any of them
/// asked for a nested load.
pub open spec fn entity_sub_assets<W, P: DynamicPrefabData<W>>(
    before: Seq<P>,
    progress: P::Progress,
    world: W,
    after: Seq<P>,
    counted: P::Progress,
    left: W,
    requested: bool,
) -> bool
    decreases before.len(),
{
    if before.len() == 0 {
        after.len() == 0 && counted == progress && left == world && !requested
    } else {
        &&& after.len() > 0
        &&& exists|between: (P::Progress, W), earlier: bool|
            {
                &&& entity_sub_assets(
                    before.drop_last(),
                    progress,
                    world,
                    after.drop_last(),
                    between.0,
                    between.1,
                    earlier,
                )
                &&& #[trigger] answers_next(
                    before.last(),
                    between.0,
                    between.1,
                    after.last(),
                    counted,
                    left,
                    earlier,
                    requested,
                )
            }
    }
}

/// The payloads of one entity are gone through as in `entity_sub_assets`
/// until one of them fails with `error` and leaves the world `left`.
pub open spec fn entity_sub_assets_failed<W, P: DynamicPrefabData<W>>(
    before: Seq<P>,
    progress: P::Progress,
    world: W,
    error: P::Error,
    left: W,
) -> bool {
    exists|n: int, done: Seq<P>, between: (P::Progress, W), requested: bool|
        {
            &&& 0 <= n < before.len()
            &&& #[trigger] entity_sub_assets(
                before.take(n),
                progress,
                world,
                done,
                between.0,
                between.1,
                requested,
            )
            &&& refused(before[n], between.0, between.1, error, left)
        }
}

/// One more entity answers: its payloads are gone through as in
/// `entity_sub_assets`, and `requested` is `earlier`, or true if one of
/// them asked for a nested load.
pub open spec fn entity_answers_next<W, P: DynamicPrefabData<W>>(
    before: Seq<P>,
    progress: P::Progress,
    world: W,
    after: Seq<P>,
    counted: P::Progress,
    left: W,
    earlier: bool,
    requested: bool,
) -> bool {
    ||| requested && entity_sub_assets(before, progress, world, after, counted, left, true)
    ||| requested == earlier && entity_sub_assets(
        before,
        progress,
        world,
        after,
        counted,
        left,
        false,
    )
}

/// The same as `entity_sub_assets`, for all the entities of a prefab: the
/// entities are gone through in order, each taking up the tracker and the
/// world where the one before it left them.
pub open spec fn sub_assets_loaded<W, P: DynamicPrefabData<W>>(
    before: Seq<Seq<P>>,
    progress: P::Progress,
    world: W,
    after: Seq<Seq<P>>,
    counted: P::Progress,
    left: W,
    requested: bool,
) -> bool
    decreases before.len(),
{
    if before.len() == 0 {
        after.len() == 0 && counted == progress && left == world && !requested
    } else {
        &&& after.len() > 0
        &&& exists|between: (P::Progress, W), earlier: bool|
            {
                &&& sub_assets_loaded(
                    before.drop_last(),
                    progress,
                    world,
                    after.drop_last(),
                    between.0,
                    between.1,
                    earlier,
                )
                &&& #[trigger] entity_answers_next(
                    before.last(),
                    between.0,
                    between.1,
                    after.last(),
                    counted,
                    left,
                    earlier,
                    requested,
                )
            }
    }
}

/// The entities of a prefab are gone through as in `sub_assets_loaded`
/// until a payload of one of them fails with `error` and leaves the world
/// `left`.
pub open spec fn sub_assets_failed<W, P: DynamicPrefabData<W>>(
    before: Seq<Seq<P>>,
    progress: P::Progress,
    world: W,
    error: P::Error,
    left: W,
) -> bool {
    exists|m: int, done: Seq<Seq<P>>, between: (P::Progress, W), requested: bool|
        {
            &&& 0 <= m < before.len()
            &&& #[trigger] sub_assets_loaded(
                before.take(m),
                progress,
                world,
                done,
                between.0,
                between.1,
                requested,
            )
            &&& entity_sub_assets_failed(before[m], between.0, between.1, error, left)
        }
}

/// Hands the tracker and the world to the payloads of one entity, in
/// order, and stops at the first that fails.
///
/// The world comes back in any case. If no payload fails, the payloads
/// come back as they were handed back, with the tracker and with whether
/// any of them asked for a nested load.
pub fn load_entity_sub_assets<W, P: DynamicPrefabData<W>>(
    entity: Vec<P>,
    progress: P::Progress,
    world: W,
) -> (outcome: (W, Result<(Vec<P>, P::Progress, bool), P::Error>))
    ensures
        match outcome.1 {
            Ok((after, counted, requested)) => entity_sub_assets(
                entity@,
                progress,
                world,
                after@,
                counted,
                outcome.0,
                requested,
            ),
            Err(error) => entity_sub_assets_failed(entity@, progress, world, error, outcome.0),
        },
{
    let mut done: Vec<P> = Vec::new();
    let mut tracker = progress;
    let mut here = world;
    let mut requested = false;
    let ghost all = entity@;
    for payload in it: entity
        invariant
            it.seq() == all,
            entity_sub_assets(
                all.take(it.index() as int),
                progress,
                world,
                done@,
                tracker,
                here,
                requested,
            ),
    {
        let ghost n = it.index() as int;
        let ghost before_done = done@;
        let ghost between = (tracker, here);
        let ghost earlier = requested;
        let (payload, next_tracker, next_world, answer) = payload.load_sub_assets(tracker, here);
        match answer {
            Ok(asked) => {
                tracker = next_tracker;
                here = next_world;
                done.push(payload);
                if asked {
                    requested = true;
                }
                proof {
                    let seen = all.take(n + 1);
                    assert(seen.drop_last() == all.take(n));
                    assert(done@.drop_last() == before_done);
                    assert(answers_next(
                        seen.last(),
                        between.0,
                        between.1,
                        done@.last(),
                        tracker,
                        here,
                        earlier,
                        requested,
                    ));
                }
            },
            Err(error) => {
                proof {
                    let gone = (payload, next_tracker);
                    assert(call_ensures(
                        <P as DynamicPrefabData<W>>::load_sub_assets,
                        (all[n], between.0, between.1),
                        (gone.0, gone.1, next_world, Err::<bool, P::Error>(error)),
                    ));
                    assert(refused(all[n], between.0, between.1, error, next_world));
                    assert(entity_sub_assets(
                        all.take(n),
                        progress,
                        world,
                        before_done,
                        between.0,
                        between.1,
                        earlier,
                    ));
                }
                return (next_world, Err(error));
            },
        }
    }
    proof {
        assert(all.take(all.len() as int) == all);
    }
    (here, Ok((done, tracker, requested)))
}

/// Going through the payloads of an entity changes none of their number.
pub proof fn lemma_entity_keeps_its_payloads<W, P: DynamicPrefabData<W>>(
    before: Seq<P>,
    progress: P::Progress,
    world: W,
    after: Seq<P>,
    counted: P::Progress,
    left: W,
    requested: bool,
)
    requires
        entity_sub_assets(before, progress, world, after, counted, left, requested),
    ensures
        after.len() == before.len(),
    decreases before.len(),
{
    if before.len() > 0 {
        let (between, earlier) = choose|between: (P::Progress, W), earlier: bool|
            {
                &&& entity_sub_assets(
                    before.drop_last(),
                    progress,
                    world,
                    after.drop_last(),
                    between.0,
                    between.1,
                    earlier,
                )
                &&& #[trigger] answers_next(
                    before.last(),
                    between.0,
                    between.1,
                    after.last(),
                    counted,
                    left,
                    earlier,
                    requested,
                )
            };
        lemma_entity_keeps_its_payloads(
            before.drop_last(),
            progress,
            world,
            after.drop_last(),
            between.0,
            between.1,
            earlier,
        );
    }
}

/// Triggering the nested loads keeps the shape of a prefab: the same
/// number of entities, and for each entity the same number of payloads.
pub proof fn lemma_sub_assets_keep_shape<W, P: DynamicPrefabData<W>>(
    before: Seq<Seq<P>>,
    progress: P::Progress,
    world: W,
    after: Seq<Seq<P>>,
    counted: P::Progress,
    left: W,
    requested: bool,
)
    requires
        sub_assets_loaded(before, progress, world, after, counted, left, requested),
    ensures
        after.len() == before.len(),
        forall|i: int| 0 <= i < before.len() ==> (#[trigger] after[i]).len() == before[i].len(),
    decreases before.len(),
{
    if before.len() > 0 {
        let (between, earlier) = choose|between: (P::Progress, W), earlier: bool|
            {
                &&& sub_assets_loaded(
                    before.drop_last(),
                    progress,
                    world,
                    after.drop_last(),
                    between.0,
                    between.1,
                    earlier,
                )
                &&& #[trigger] entity_answers_next(
                    before.last(),
                    between.0,
                    between.1,
                    after.last(),
                    counted,
                    left,
                    earlier,
                    requested,
                )
            };
        lemma_sub_assets_keep_shape(
            before.drop_last(),
            progress,
            world,
            after.drop_last(),
            between.0,
            between.1,
            earlier,
        );
        let asked = entity_sub_assets(
            before.last(),
            between.0,
            between.1,
            after.last(),
            counted,
            left,
            true,
        );
        lemma_entity_keeps_its_payloads(
            before.last(),
            between.0,
            between.1,
            after.last(),
            counted,
            left,
            asked,
        );
        assert forall|i: int| 0 <= i < before.len() implies (#[trigger] after[i]).len()
            == before[i].len() by {
            if i < before.len() - 1 {
                assert(after.drop_last()[i] == after[i]);
                assert(before.drop_last()[i] == before[i]);
            }
        }
    }
}

/// No payload ever asks for a nested load, or fails to.
pub open spec fn nothing_to_load<W, P: DynamicPrefabData<W>>() -> bool {
    forall|payload: P, progress: P::Progress, world: W, out: (P, P::Progress, W, Result<bool, P::Error>)|
        call_ensures(
            <P as DynamicPrefabData<W>>::load_sub_assets,
            (payload, progress, world),
            out,
        ) ==> out.3 == Ok::<bool, P::Error>(false)
}

/// Where no payload has anything to load, going through the payloads of
/// an entity requests nothing.
pub proof fn lemma_quiet_entity_requests_nothing<W, P: DynamicPrefabData<W>>(
    before: Seq<P>,
    progress: P::Progress,
    world: W,
    after: Seq<P>,
    counted: P::Progress,
    left: W,
    requested: bool,
)
    requires
        nothing_to_load::<W, P>(),
        entity_sub_assets(before, progress, world, after, counted, left, requested),
    ensures
        !requested,
    decreases before.len(),
{
    if before.len() > 0 {
        let (between, earlier) = choose|between: (P::Progress, W), earlier: bool|
            {
                &&& entity_sub_assets(
                    before.drop_last(),
                    progress,
                    world,
                    after.drop_last(),
                    between.0,
                    between.1,
                    earlier,
                )
                &&& #[trigger] answers_next(
                    before.last(),
                    between.0,
                    between.1,
                    after.last(),
                    counted,
                    left,
                    earlier,
                    requested,
                )
            };
        lemma_quiet_entity_requests_nothing(
            before.drop_last(),
            progress,
            world,
            after.drop_last(),
            between.0,
            between.1,
            earlier,
        );
        if answered(before.last(), between.0, between.1, after.last(), counted, left, true) {
            let out = (after.last(), counted, left, Ok::<bool, P::Error>(true));
            assert(call_ensures(
                <P as DynamicPrefabData<W>>::load_sub_assets,
                (before.last(), between.0, between.1),
                out,
            ));
            assert(false);
        }
    }
}

/// Where no payload has anything to load, triggering the nested loads of
/// a prefab requests nothing.
pub proof fn lemma_quiet_prefab_requests_nothing<W, P: DynamicPrefabData<W>>(
    before: Seq<Seq<P>>,
    progress: P::Progress,
    world: W,
    after: Seq<Seq<P>>,
    counted: P::Progress,
    left: W,
    requested: bool,
)
    requires
        nothing_to_load::<W, P>(),
        sub_assets_loaded(before, progress, world, after, counted, left, requested),
    ensures
        !requested,
    decreases before.len(),
{
    if before.len() > 0 {
        let (between, earlier) = choose|between: (P::Progress, W), earlier: bool|
            {
                &&& sub_assets_loaded(
                    before.drop_last(),
                    progress,
                    world,
                    after.drop_last(),
                    between.0,
                    between.1,
                    earlier,
                )
                &&& #[trigger] entity_answers_next(
                    before.last(),
                    between.0,
                    between.1,
                    after.last(),
                    counted,
                    left,
                    earlier,
                    requested,
                )
            };
        lemma_quiet_prefab_requests_nothing(
            before.drop_last(),
            progress,
            world,
            after.drop_last(),
            between.0,
            between.1,
            earlier,
        );
        if entity_sub_assets(before.last(), between.0, between.1, after.last(), counted, left, true) {
            lemma_quiet_entity_requests_nothing(
                before.last(),
                between.0,
                between.1,
                after.last(),
                counted,
                left,
                true,
            );
        }
    }
}

/// Where no payload has anything to load, triggering the nested loads of
/// a prefab does not fail.
pub proof fn lemma_quiet_prefab_does_not_fail<W, P: DynamicPrefabData<W>>(
    before: Seq<Seq<P>>,
    progress: P::Progress,
    world: W,
    error: P::Error,
    left: W,
)
    requires
        nothing_to_load::<W, P>(),
    ensures
        !sub_assets_failed(before, progress, world, error, left),
{
    if sub_assets_failed(before, progress, world, error, left) {
        let (m, done, between, requested) = choose|
            m: int,
            done: Seq<Seq<P>>,
            between: (P::Progress, W),
            requested: bool,
        |
            {
                &&& 0 <= m < before.len()
                &&& #[trigger] sub_assets_loaded(
                    before.take(m),
                    progress,
                    world,
                    done,
                    between.0,
                    between.1,
                    requested,
                )
                &&& entity_sub_assets_failed(before[m], between.0, between.1, error, left)
            };
        let entity = before[m];
        let (n, gone, reached, asked) = choose|
            n: int,
            gone: Seq<P>,
            reached: (P::Progress, W),
            asked: bool,
        |
            {
                &&& 0 <= n < entity.len()
                &&& #[trigger] entity_sub_assets(
                    entity.take(n),
                    between.0,
                    between.1,
                    gone,
                    reached.0,
                    reached.1,
                    asked,
                )
                &&& refused(entity[n], reached.0, reached.1, error, left)
            };
        let lost = choose|lost: (P, P::Progress)| #[trigger]
            call_ensures(
                <P as DynamicPrefabData<W>>::load_sub_assets,
                (entity[n], reached.0, reached.1),
                (lost.0, lost.1, left, Err::<bool, P::Error>(error)),
            );
        let out = (lost.0, lost.1, left, Err::<bool, P::Error>(error));
        assert(call_ensures(
            <P as DynamicPrefabData<W>>::load_sub_assets,
            (entity[n], reached.0, reached.1),
            out,
        ));
        assert(false);
    }
}

/// What the data of a prefab holds, one sequence for each entity.
pub enum DataView<P> {
    Untyped(Seq<Seq<(u128, serde_json::Value)>>),
    Typed(Seq<Seq<P>>),
}

impl<P> View for IntermediateDataState<P> {
    type V = DataView<P>;

    open spec fn view(&self) -> DataView<P> {
        match self {
            IntermediateDataState::Untyped(data) => DataView::Untyped(rows(*data)),
            IntermediateDataState::Typed(data) => DataView::Typed(rows(*data)),
        }
    }
}

/// Intermediate representation for dynamic prefabs.
///
/// Dynamic prefabs are loaded in two phases: first the raw asset data is
/// parsed into an intermediate representation that leaves the attribute
/// data anonymous. Then the prefab loader system performs a second pass
/// over the data and uses the type identifiers to turn the data into
/// their concrete types.
pub struct IntermediateDynamicPrefab<P: PrefabPayload> {
    tag: Option<u64>,
    entities: IntermediateDataState<P>,
    counter: Option<P::Progress>,
}

/// What an intermediate prefab holds.
pub struct IntermediateView<P: PrefabPayload> {
    /// The tag of this loaded instance, once it has one.
    pub tag: Option<u64>,
    pub entities: DataView<P>,
    /// The tracker of the nested loads, once they have been triggered.
    pub counter: Option<P::Progress>,
}

impl<P: PrefabPayload> View for IntermediateDynamicPrefab<P> {
    type V = IntermediateView<P>;

    closed spec fn view(&self) -> IntermediateView<P> {
        IntermediateView { tag: self.tag, entities: self.entities@, counter: self.counter }
    }
}

impl<P: PrefabPayload> IntermediateDynamicPrefab<P> {
    /// A prefab as it comes out of parsing: no tag, no tracker, and the
    /// entities with their attributes in the order of the source.
    pub fn new(data: IntermediatePrefabData) -> (prefab: Self)
        ensures
            prefab@.tag is None,
            prefab@.entities == DataView::<P>::Untyped(rows(data)),
            prefab@.counter is None,
    {
        IntermediateDynamicPrefab {
            tag: None,
            entities: IntermediateDataState::Untyped(data),
            counter: None,
        }
    }

    /// The tag of this prefab, if one was assigned already.
    pub fn tag(&self) -> (tag: Option<u64>)
        ensures
            tag == self@.tag,
    {
        self.tag
    }

    /// Check if the attribute data has been resolved into typed payloads.
    pub fn typed(&self) -> (typed: bool)
        ensures
            typed == (self@.entities is Typed),
    {
        match &self.entities {
            IntermediateDataState::Untyped(_) => false,
            IntermediateDataState::Typed(_) => true,
        }
    }

    /// Check if sub asset loading have been triggered.
    pub fn loading(&self) -> (loading: bool)
        ensures
            loading == (self@.counter is Some),
    {
        self.counter.is_some()
    }

    /// Get the tracker for the sub asset loading, which must have been
    /// triggered.
    pub fn progress(&self) -> (progress: &P::Progress)
        requires
            self@.counter is Some,
        ensures
            self@.counter == Some(*progress),
    {
        self.counter.as_ref().unwrap()
    }

    /// Gives up the prefab for the tracker of its sub asset loading, which
    /// must have been triggered.
    pub fn into_progress(self) -> (progress: P::Progress)
        requires
            self@.counter is Some,
        ensures
            self@.counter == Some(progress),
    {
        self.counter.unwrap()
    }

    /// Gives the prefab the tag `next` unless it has one already, and says
    /// whether it did.
    pub fn assign_tag(&mut self, next: u64) -> (assigned: bool)
        ensures
            assigned == (old(self)@.tag is None),
            final(self)@.tag == (if assigned {
                Some(next)
            } else {
                old(self)@.tag
            }),
            final(self)@.entities == old(self)@.entities,
            final(self)@.counter == old(self)@.counter,
    {
        if self.tag.is_none() {
            self.tag = Some(next);
            true
        } else {
            false
        }
    }

    /// Resolves the attribute data against the registry if that has not
    /// been done yet, and reports what was dropped, entity by entity.
    ///
    /// A prefab that is typed already is left as it is and nothing is
    /// reported for it.
    pub fn deserialize<S: SerializeDynamic<Data = P>>(
        self,
        serializer_map: &SerializerMap<S>,
    ) -> (resolved: (Self, Vec<Vec<DroppedAttribute<P::Error>>>))
        ensures
            resolved.0@.tag == self@.tag,
            resolved.0@.counter == self@.counter,
            self@.entities is Typed ==> resolved.0@.entities == self@.entities
                && resolved.1@.len() == 0,
            self@.entities matches DataView::Untyped(untyped) ==> (
            resolved.0@.entities matches DataView::Typed(typed) && resolves(
                serializer_map@,
                untyped,
                typed,
                rows(resolved.1),
            )),
    {
        let IntermediateDynamicPrefab { tag, entities, counter } = self;
        let (entities, dropped) = entities.deserialize(serializer_map);
        (IntermediateDynamicPrefab { tag, entities, counter }, dropped)
    }

    /// Trigger sub asset loading for the asset, whose data must be typed.
    ///
    /// Every payload is handed the tracker and the world, entity by entity
    /// and in order, each taking them up where the one before left them;
    /// the first gets `progress` and `world`. The world comes back in any
    /// case. If all payloads answer, the prefab comes back with the
    /// payloads as they were handed back and with the tracker as the last
    /// of them left it, together with whether any payload asked for a
    /// nested load. The first error ends the pass and is handed on; the
    /// prefab is gone then.
    pub fn load_sub_assets<W>(self, progress: P::Progress, world: W) -> (outcome: (
        W,
        Result<(Self, bool), P::Error>,
    )) where P: DynamicPrefabData<W>
        requires
            self@.entities is Typed,
        ensures
            match outcome.1 {
                Ok((prefab, requested)) => {
                    &&& prefab@.tag == self@.tag
                    &&& prefab@.counter is Some
                    &&& prefab@.entities is Typed
                    &&& sub_assets_loaded(
                        self@.entities->Typed_0,
                        progress,
                        world,
                        prefab@.entities->Typed_0,
                        prefab@.counter->Some_0,
                        outcome.0,
                        requested,
                    )
                },
                Err(error) => sub_assets_failed(
                    self@.entities->Typed_0,
                    progress,
                    world,
                    error,
                    outcome.0,
                ),
            },
    {
        let IntermediateDynamicPrefab { tag, entities, counter: _ } = self;
        let entities = match entities {
            IntermediateDataState::Typed(entities) => entities,
            IntermediateDataState::Untyped(_) => unreached(),
        };
        let ghost before = rows(entities);
        let ghost all = entities@;
        let mut loaded: Vec<Vec<P>> = Vec::new();
        let mut tracker = progress;
        let mut here = world;
        let mut ret = false;
        for entity in it: entities
            invariant
                it.seq() == all,
                self@.entities == DataView::<P>::Typed(before),
                before.len() == all.len(),
                forall|i: int| 0 <= i < all.len() ==> before[i] == (#[trigger] all[i])@,
                sub_assets_loaded(
                    before.take(it.index() as int),
                    progress,
                    world,
                    rows(loaded),
                    tracker,
                    here,
                    ret,
                ),
        {
            let ghost m = it.index() as int;
            let ghost before_loaded = rows(loaded);
            let ghost between = (tracker, here);
            let ghost earlier = ret;
            assert(before[m] == entity@);
            let (next_world, outcome) = load_entity_sub_assets(entity, tracker, here);
            match outcome {
                Ok((entity, next_tracker, requested)) => {
                    tracker = next_tracker;
                    here = next_world;
                    loaded.push(entity);
                    if requested {
                        ret = true;
                    }
                    proof {
                        let seen = before.take(m + 1);
                        assert(seen.drop_last() == before.take(m));
                        assert(rows(loaded).drop_last() == before_loaded);
                        assert(rows(loaded).last() == entity@);
                        assert(entity_answers_next(
                            seen.last(),
                            between.0,
                            between.1,
                            rows(loaded).last(),
                            tracker,
                            here,
                            earlier,
                            ret,
                        ));
                    }
                },
                Err(error) => {
                    proof {
                        assert(sub_assets_loaded(
                            before.take(m),
                            progress,
                            world,
                            before_loaded,
                            between.0,
                            between.1,
                            earlier,
                        ));
                        assert(entity_sub_assets_failed(
                            before[m],
                            between.0,
                            between.1,
                            error,
                            next_world,
                        ));
                    }
                    return (next_world, Err(error));
                },
            }
        }
        proof {
            assert(before.take(before.len() as int) == before);
        }
        (
            here,
            Ok(
                (
                    IntermediateDynamicPrefab {
                        tag,
                        entities: IntermediateDataState::Typed(loaded),
                        counter: Some(tracker),
                    },
                    ret,
                ),
            ),
        )
    }
}

/// Asset type for dynamic prefabs: a prefab whose loading is complete.
pub struct DynamicPrefab<P> {
    tag: u64,
    entities: Vec<Vec<P>>,
}

/// What a loaded prefab holds.
pub struct PrefabView<P> {
    /// The tag shared by the entities created from this prefab.
    pub tag: u64,
    /// The payloads of each entity, the root entity first.
    pub entities: Seq<Seq<P>>,
}

impl<P> View for DynamicPrefab<P> {
    type V = PrefabView<P>;

    closed spec fn view(&self) -> PrefabView<P> {
        PrefabView { tag: self.tag, entities: rows(self.entities) }
    }
}

impl<P: PrefabPayload> DynamicPrefab<P> {
    /// The loaded prefab of an intermediate one that has its tag and whose
    /// data is typed: the same tag, the same payloads.
    pub fn from(from: IntermediateDynamicPrefab<P>) -> (prefab: Self)
        requires
            from@.tag is Some,
            from@.entities is Typed,
        ensures
            prefab@.tag == from@.tag->Some_0,
            prefab@.entities == from@.entities->Typed_0,
    {
        let IntermediateDynamicPrefab { tag, entities, counter: _ } = from;
        let entities = match entities {
            IntermediateDataState::Typed(entities) => entities,
            IntermediateDataState::Untyped(_) => unreached(),
        };
        DynamicPrefab { tag: tag.unwrap(), entities }
    }
}

impl<P> DynamicPrefab<P> {
    /// The tag shared by the entities created from this prefab.
    pub fn tag(&self) -> (tag: u64)
        ensures
            tag == self@.tag,
    {
        self.tag
    }

    /// The number of entity records.
    pub fn len(&self) -> (len: usize)
        ensures
            len == self@.entities.len(),
    {
        self.entities.len()
    }

    /// The payloads of the entity record at `index`.
    pub fn entity(&self, index: usize) -> (payloads: &Vec<P>)
        requires
            index < self@.entities.len(),
        ensures
            payloads@ == self@.entities[index as int],
    {
        &self.entities[index]
    }
}

} // verus!

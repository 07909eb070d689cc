use amethyst_dynamic_prefab::bundle::DynamicPrefabBundle;
use amethyst_dynamic_prefab::loader::DynamicPrefabTag;
use amethyst_dynamic_prefab::prefab::{
    load_entity_sub_assets, resolve_entity, DropReason, DroppedAttribute, DynamicPrefab,
    DynamicPrefabData, IntermediateDataState, IntermediateDynamicPrefab, IntermediatePrefabData,
    PrefabPayload, SerializeDynamic, SerializerMap,
};
use amethyst_dynamic_prefab::system::{
    apply_entity, ApplyError, Completion, ComponentEvent, Instantiation, PrefabLoaderSystem,
    ProcessingError, ProcessingState,
};
use serde_json::Value;
use std::cell::Cell;
use std::collections::BTreeMap;
use std::rc::Rc;

const POSITION: [u8; 16] = [
    0xb8, 0xf1, 0x8b, 0x7e, 0x4e, 0xb9, 0x42, 0x9c, 0xaf, 0xbf, 0xee, 0x2f, 0x9f, 0x4c, 0xbc, 0x01,
];

const NAME: [u8; 16] = [
    0x11, 0x22, 0x33, 0x44, 0x55, 0x66, 0x47, 0x88, 0x99, 0xaa, 0xbb, 0xcc, 0xdd, 0xee, 0xff, 0x02,
];

const SPRITE: [u8; 16] = [
    0x5a, 0x5a, 0x5a, 0x5a, 0x5a, 0x5a, 0x4a, 0x5a, 0x8a, 0x5a, 0x5a, 0x5a, 0x5a, 0x5a, 0x5a, 0x03,
];

const UNKNOWN: [u8; 16] = [
    0xde, 0xad, 0xbe, 0xef, 0xde, 0xad, 0x4e, 0xef, 0x9e, 0xad, 0xbe, 0xef, 0xde, 0xad, 0xbe, 0xef,
];

/// A small world: entities are numbered in the order they are made, and
/// everything that is done to the world is written down in order.
#[derive(Clone, Debug, Default, PartialEq)]
struct World {
    entities: u32,
    tags: Vec<(u32, u64)>,
    positions: Vec<(u32, i64, i64)>,
    names: Vec<(u32, String)>,
    sprites: Vec<(u32, u32)>,
    seen: Vec<Vec<u32>>,
    requests: Vec<String>,
}

impl World {
    fn spawn(&mut self) -> u32 {
        let id = self.entities;
        self.entities += 1;
        id
    }
}

/// The tracker of nested loads: what is under way and whether one failed.
/// The loads go on while the prefab waits, so the counts can be changed
/// through a shared reference.
#[derive(Default)]
struct Tracker {
    loading: Cell<u32>,
    failed: Cell<bool>,
}

#[derive(Clone, Debug, PartialEq)]
enum Attribute {
    Position { x: i64, y: i64 },
    Name(String),
    Sprite { file: String, handle: Option<u32> },
}

impl PrefabPayload for Attribute {
    type Entity = u32;
    type Progress = Tracker;
    type Error = String;
}

impl DynamicPrefabData<World> for Attribute {
    fn add_to_entity(
        &self,
        entity: u32,
        mut world: World,
        entities: &Vec<u32>,
    ) -> (World, Result<(), String>) {
        world.seen.push(entities.clone());
        let applied = match self {
            Attribute::Position { x, y } => {
                world.positions.push((entity, *x, *y));
                Ok(())
            }
            Attribute::Name(name) => {
                if name == "forbidden" {
                    Err(format!("entity {} may not be called that", entity))
                } else {
                    world.names.push((entity, name.clone()));
                    Ok(())
                }
            }
            Attribute::Sprite { handle, .. } => match handle {
                Some(handle) => {
                    world.sprites.push((entity, *handle));
                    Ok(())
                }
                None => Err(format!("sprite of entity {} was never loaded", entity)),
            },
        };
        (world, applied)
    }

    fn load_sub_assets(
        self,
        progress: Tracker,
        mut world: World,
    ) -> (Self, Tracker, World, Result<bool, String>) {
        match self {
            Attribute::Sprite { file, handle: None } => {
                if file.is_empty() {
                    let error = Err("sprite without a file".to_string());
                    return (Attribute::Sprite { file, handle: None }, progress, world, error);
                }
                if file == "missing.png" {
                    progress.failed.set(true);
                } else {
                    progress.loading.set(progress.loading.get() + 1);
                }
                world.requests.push(file.clone());
                let handle = Some(file.len() as u32);
                (Attribute::Sprite { file, handle }, progress, world, Ok(true))
            }
            other => (other, progress, world, Ok(false)),
        }
    }
}

/// The deserializers of the three attribute types; each counts its calls.
enum Deserializer {
    Position(Rc<Cell<usize>>),
    Name(Rc<Cell<usize>>),
    Sprite(Rc<Cell<usize>>),
}

impl SerializeDynamic for Deserializer {
    type Data = Attribute;

    fn instantiate(&self, data: Value) -> Result<Attribute, String> {
        match self {
            Deserializer::Position(calls) => {
                calls.set(calls.get() + 1);
                let x = data.get("x").and_then(Value::as_i64);
                let y = data.get("y").and_then(Value::as_i64);
                match (x, y) {
                    (Some(x), Some(y)) => Ok(Attribute::Position { x, y }),
                    _ => Err(format!("not a position: {}", data)),
                }
            }
            Deserializer::Name(calls) => {
                calls.set(calls.get() + 1);
                match data.as_str() {
                    Some(name) => Ok(Attribute::Name(name.to_string())),
                    None => Err(format!("not a name: {}", data)),
                }
            }
            Deserializer::Sprite(calls) => {
                calls.set(calls.get() + 1);
                match data.as_str() {
                    Some(file) => Ok(Attribute::Sprite { file: file.to_string(), handle: None }),
                    None => Err(format!("not a sprite: {}", data)),
                }
            }
        }
    }
}

type System = PrefabLoaderSystem<Deserializer, &'static str, &'static str>;

struct Fixture {
    system: System,
    world: World,
    calls: Rc<Cell<usize>>,
}

fn fixture() -> Fixture {
    let calls = Rc::new(Cell::new(0));
    let mut bundle = DynamicPrefabBundle::new();
    bundle.register_component(
        POSITION,
        Deserializer::Position(calls.clone()),
        vec!["entities"],
        vec!["positions"],
        "position storage",
    );
    bundle.register_component(
        NAME,
        Deserializer::Name(calls.clone()),
        vec![],
        vec!["names"],
        "name storage",
    );
    bundle.register_component(
        SPRITE,
        Deserializer::Sprite(calls.clone()),
        vec!["loader"],
        vec!["sprites"],
        "sprite storage",
    );
    Fixture { system: bundle.build(), world: World::default(), calls }
}

/// The number under which the type with the identifier `bytes` is filed.
fn key(bytes: [u8; 16]) -> u128 {
    u128::from_be_bytes(bytes)
}

fn json(text: &str) -> Value {
    serde_json::from_str(text).expect("the test's own JSON")
}

fn position(x: i64, y: i64) -> (u128, Value) {
    (key(POSITION), json(&format!("{{\"x\": {}, \"y\": {}}}", x, y)))
}

fn name(name: &str) -> (u128, Value) {
    (key(NAME), Value::String(name.to_string()))
}

fn sprite(file: &str) -> (u128, Value) {
    (key(SPRITE), Value::String(file.to_string()))
}

fn unknown() -> (u128, Value) {
    (key(UNKNOWN), json("{\"ignored\": true}"))
}

fn complete(tracker: &Tracker) -> Completion {
    if tracker.failed.get() {
        Completion::Failed
    } else if tracker.loading.get() > 0 {
        Completion::Loading
    } else {
        Completion::Complete
    }
}

fn create(mut world: World, tag: DynamicPrefabTag) -> (World, u32) {
    let entity = world.spawn();
    world.tags.push((entity, tag.tag()));
    (world, entity)
}

type Dropped = Vec<Vec<DroppedAttribute<String>>>;

type Outcome = Result<ProcessingState<Attribute>, ProcessingError<Attribute>>;

fn process(
    fixture: &mut Fixture,
    prefab: IntermediateDynamicPrefab<Attribute>,
) -> (Outcome, Dropped) {
    assert!(prefab.tag().is_some() || fixture.system.next_tag() < u64::MAX);
    let world = std::mem::take(&mut fixture.world);
    let (world, outcome, dropped) =
        fixture.system.process(prefab, Tracker::default(), world, complete);
    fixture.world = world;
    (outcome, dropped)
}

fn instantiate(
    fixture: &mut Fixture,
    root: u32,
    prefab: &DynamicPrefab<Attribute>,
) -> Option<Instantiation<Attribute>> {
    let world = std::mem::take(&mut fixture.world);
    let (world, made) = fixture.system.instantiate(root, root, prefab, world, create);
    fixture.world = world;
    made
}

fn loaded(outcome: Outcome) -> DynamicPrefab<Attribute> {
    match outcome {
        Ok(ProcessingState::Loaded(prefab)) => prefab,
        Ok(ProcessingState::Loading(_)) => panic!("the prefab is still loading"),
        Err(error) => panic!("the prefab failed: {}", error.message()),
    }
}

fn still_loading(outcome: Outcome) -> IntermediateDynamicPrefab<Attribute> {
    match outcome {
        Ok(ProcessingState::Loading(prefab)) => prefab,
        Ok(ProcessingState::Loaded(_)) => panic!("the prefab is loaded already"),
        Err(error) => panic!("the prefab failed: {}", error.message()),
    }
}

fn payloads(prefab: &DynamicPrefab<Attribute>) -> Vec<Vec<Attribute>> {
    (0..prefab.len()).map(|index| prefab.entity(index).clone()).collect()
}

#[test]
fn position_prefab_puts_position_on_root_and_makes_no_entity() {
    let mut fixture = fixture();
    let text = "[ { \"b8f18b7e-4eb9-429c-afbf-ee2f9f4cbc01\": { \"x\": 1, \"y\": 2 } } ]";
    let parsed: Vec<BTreeMap<uuid::Uuid, Value>> = serde_json::from_str(text).unwrap();
    let data: IntermediatePrefabData = parsed
        .into_iter()
        .map(|entity| entity.into_iter().map(|(id, value)| (id.as_u128(), value)).collect())
        .collect();
    let prefab = IntermediateDynamicPrefab::new(data);

    let (outcome, dropped) = process(&mut fixture, prefab);
    let prefab = loaded(outcome);
    assert_eq!(dropped, vec![vec![]]);

    let root = fixture.world.spawn();
    fixture.system.mark_inserted(root);
    let made = instantiate(&mut fixture, root, &prefab)
        .expect("the root waits for its prefab");
    fixture.system.end_pass();

    assert_eq!(made.entities, vec![root]);
    assert_eq!(made.failures, vec![vec![]]);
    assert_eq!(fixture.world.positions, vec![(root, 1, 2)]);
    assert_eq!(fixture.world.entities, 1);
    assert!(fixture.world.tags.is_empty());
    assert!(fixture.world.names.is_empty());
    assert!(!fixture.system.pending(root));
}

#[test]
fn recognized_attribute_after_unrecognized_one_is_still_applied() {
    let mut fixture = fixture();
    let prefab = IntermediateDynamicPrefab::new(vec![vec![unknown(), position(3, 4)]]);

    let (outcome, dropped) = process(&mut fixture, prefab);
    let prefab = loaded(outcome);
    assert_eq!(
        dropped,
        vec![vec![DroppedAttribute {
            attribute: 0,
            uuid: key(UNKNOWN),
            reason: DropReason::Unregistered,
        }]]
    );
    assert_eq!(payloads(&prefab), vec![vec![Attribute::Position { x: 3, y: 4 }]]);

    let root = fixture.world.spawn();
    fixture.system.mark_inserted(root);
    let made = instantiate(&mut fixture, root, &prefab).unwrap();
    assert_eq!(made.failures, vec![vec![]]);
    assert_eq!(fixture.world.positions, vec![(root, 3, 4)]);
}

#[test]
fn failed_nested_load_fails_prefab_and_nothing_is_instantiated() {
    let mut fixture = fixture();
    let prefab = IntermediateDynamicPrefab::new(vec![vec![sprite("missing.png")]]);

    let (outcome, dropped) = process(&mut fixture, prefab);
    assert_eq!(dropped, vec![vec![]]);
    match outcome {
        Err(error) => {
            assert_eq!(error.message(), "Failed loading sub asset");
            match error {
                ProcessingError::SubAssetFailed(tracker) => assert!(tracker.failed.get()),
                ProcessingError::StartingSubAssets(_) => panic!("the load was requested"),
            }
        }
        Ok(_) => panic!("a prefab with a failed nested load must fail"),
    }
    assert_eq!(fixture.world.entities, 0);
    assert!(fixture.world.sprites.is_empty());
    assert!(fixture.world.tags.is_empty());
}

#[test]
fn nested_load_that_fails_on_a_later_tick_fails_prefab() {
    let mut fixture = fixture();
    let prefab = IntermediateDynamicPrefab::new(vec![vec![sprite("ship.png")]]);
    let (outcome, _) = process(&mut fixture, prefab);
    let prefab = still_loading(outcome);

    prefab.progress().failed.set(true);
    let (outcome, dropped) = process(&mut fixture, prefab);
    assert!(dropped.is_empty());
    match outcome {
        Err(ProcessingError::SubAssetFailed(tracker)) => assert_eq!(tracker.loading.get(), 1),
        _ => panic!("a prefab with a failed nested load must fail"),
    }
    assert_eq!(fixture.world.entities, 0);
}

#[test]
fn payload_that_cannot_request_its_load_fails_prefab() {
    let mut fixture = fixture();
    let prefab =
        IntermediateDynamicPrefab::new(vec![vec![position(1, 1)], vec![sprite(""), name("x")]]);

    let (outcome, _) = process(&mut fixture, prefab);
    match outcome {
        Err(error) => {
            assert_eq!(error.message(), "Failed starting sub asset loading");
            match error {
                ProcessingError::StartingSubAssets(error) => {
                    assert_eq!(error, "sprite without a file")
                }
                ProcessingError::SubAssetFailed(_) => panic!("no load was under way"),
            }
        }
        Ok(_) => panic!("the prefab must fail"),
    }
}

#[test]
fn unrecognized_identifier_is_dropped_and_reported_exactly_once() {
    let mut fixture = fixture();
    let prefab = IntermediateDynamicPrefab::new(vec![
        vec![position(0, 0)],
        vec![position(5, 6), unknown(), name("second")],
    ]);

    let (outcome, dropped) = process(&mut fixture, prefab);
    let prefab = loaded(outcome);

    assert_eq!(dropped.len(), 2);
    assert!(dropped[0].is_empty());
    assert_eq!(
        dropped[1],
        vec![DroppedAttribute {
            attribute: 1,
            uuid: key(UNKNOWN),
            reason: DropReason::Unregistered,
        }]
    );
    assert_eq!(
        payloads(&prefab),
        vec![
            vec![Attribute::Position { x: 0, y: 0 }],
            vec![Attribute::Position { x: 5, y: 6 }, Attribute::Name("second".to_string())],
        ]
    );
}

#[test]
fn malformed_value_is_dropped_with_the_deserializer_error() {
    let mut fixture = fixture();
    let prefab = IntermediateDynamicPrefab::new(vec![vec![
        name("kept"),
        (key(POSITION), json("{\"x\": 1}")),
        position(7, 8),
    ]]);

    let (outcome, dropped) = process(&mut fixture, prefab);
    let prefab = loaded(outcome);

    assert_eq!(
        dropped,
        vec![vec![DroppedAttribute {
            attribute: 1,
            uuid: key(POSITION),
            reason: DropReason::Malformed("not a position: {\"x\":1}".to_string()),
        }]]
    );
    assert_eq!(
        payloads(&prefab),
        vec![vec![Attribute::Name("kept".to_string()), Attribute::Position { x: 7, y: 8 }]]
    );
}

#[test]
fn every_entity_record_gets_an_entity_and_the_root_is_reused() {
    let mut fixture = fixture();
    let prefab = IntermediateDynamicPrefab::new(vec![
        vec![position(1, 2), name("root")],
        vec![name("left")],
        vec![position(9, 9)],
    ]);
    let (outcome, _) = process(&mut fixture, prefab);
    let prefab = loaded(outcome);
    assert_eq!(prefab.len(), 3);
    assert_eq!(prefab.tag(), 0);

    let _other = fixture.world.spawn();
    let root = fixture.world.spawn();
    fixture.system.mark_inserted(root);
    let made = instantiate(&mut fixture, root, &prefab).unwrap();

    assert_eq!(made.entities, vec![root, 2, 3]);
    assert_eq!(fixture.world.entities, 4);
    assert_eq!(made.failures, vec![vec![], vec![], vec![]]);
    assert_eq!(fixture.world.tags, vec![(2, 0), (3, 0)]);
    assert_eq!(fixture.world.positions, vec![(root, 1, 2), (3, 9, 9)]);
    assert_eq!(
        fixture.world.names,
        vec![(root, "root".to_string()), (2, "left".to_string())]
    );
    let seen = &fixture.world.seen;
    assert_eq!(seen.len(), 4);
    assert!(seen.iter().all(|entities| *entities == vec![root, 2, 3]));
}

#[test]
fn prefab_without_entity_records_leaves_the_root_alone() {
    let mut fixture = fixture();
    let (outcome, dropped) = process(&mut fixture, IntermediateDynamicPrefab::new(vec![]));
    let prefab = loaded(outcome);
    assert!(dropped.is_empty());
    assert_eq!(prefab.len(), 0);

    let root = fixture.world.spawn();
    fixture.system.mark_inserted(root);
    let made = instantiate(&mut fixture, root, &prefab).unwrap();
    assert_eq!(made.entities, vec![root]);
    assert!(made.failures.is_empty());
    assert_eq!(fixture.world.entities, 1);
}

#[test]
fn second_pass_does_not_deserialize_again_or_change_the_tag() {
    let mut fixture = fixture();
    let prefab = IntermediateDynamicPrefab::new(vec![vec![position(1, 2), sprite("ship.png")]]);
    assert_eq!(prefab.tag(), None);
    assert!(!prefab.typed());
    assert!(!prefab.loading());

    let (outcome, dropped) = process(&mut fixture, prefab);
    assert_eq!(dropped, vec![vec![]]);
    let prefab = still_loading(outcome);
    assert_eq!(prefab.tag(), Some(0));
    assert!(prefab.typed());
    assert!(prefab.loading());
    assert_eq!(prefab.progress().loading.get(), 1);
    assert_eq!(fixture.calls.get(), 2);
    assert_eq!(fixture.system.next_tag(), 1);

    let (outcome, dropped) = process(&mut fixture, prefab);
    assert!(dropped.is_empty());
    let prefab = still_loading(outcome);
    assert_eq!(prefab.tag(), Some(0));
    assert_eq!(prefab.progress().loading.get(), 1);
    assert_eq!(fixture.calls.get(), 2);
    assert_eq!(fixture.system.next_tag(), 1);

    prefab.progress().loading.set(0);
    let (outcome, dropped) = process(&mut fixture, prefab);
    assert!(dropped.is_empty());
    let prefab = loaded(outcome);
    assert_eq!(prefab.tag(), 0);
    assert_eq!(fixture.calls.get(), 2);
    assert_eq!(fixture.system.next_tag(), 1);
    assert_eq!(
        payloads(&prefab),
        vec![vec![
            Attribute::Position { x: 1, y: 2 },
            Attribute::Sprite { file: "ship.png".to_string(), handle: Some(8) },
        ]]
    );
}

#[test]
fn typed_data_is_handed_back_unchanged_by_deserialize() {
    let calls = Rc::new(Cell::new(0));
    let mut registry: SerializerMap<Deserializer> = SerializerMap::new();
    registry.insert(key(POSITION), Deserializer::Position(calls.clone()));

    let untyped: IntermediateDataState<Attribute> =
        IntermediateDataState::Untyped(vec![vec![position(1, 2), unknown()]]);
    let (typed, dropped) = untyped.deserialize(&registry);
    assert_eq!(dropped.len(), 1);
    assert_eq!(dropped[0].len(), 1);
    assert_eq!(calls.get(), 1);

    let (again, dropped) = typed.deserialize(&registry);
    assert!(dropped.is_empty());
    assert_eq!(calls.get(), 1);
    match again {
        IntermediateDataState::Typed(data) => {
            assert_eq!(data, vec![vec![Attribute::Position { x: 1, y: 2 }]])
        }
        IntermediateDataState::Untyped(_) => panic!("typed data must stay typed"),
    }
}

#[test]
fn each_new_prefab_gets_the_next_tag() {
    let mut fixture = fixture();
    assert_eq!(fixture.system.next_tag(), 0);
    let (first, _) = process(&mut fixture, IntermediateDynamicPrefab::new(vec![vec![]]));
    let (second, _) = process(&mut fixture, IntermediateDynamicPrefab::new(vec![vec![]]));
    let (third, _) =
        process(&mut fixture, IntermediateDynamicPrefab::new(vec![vec![sprite("a.png")]]));
    assert_eq!(loaded(first).tag(), 0);
    assert_eq!(loaded(second).tag(), 1);
    assert_eq!(still_loading(third).tag(), Some(2));
    assert_eq!(fixture.system.next_tag(), 3);
}

#[test]
fn resolving_through_the_registry_applies_like_the_payload_itself() {
    let mut fixture = fixture();
    let (uuid, value) = position(-4, 11);

    let mut direct_world = World::default();
    let direct_root = direct_world.spawn();
    let direct = Deserializer::Position(Rc::new(Cell::new(0))).instantiate(value.clone()).unwrap();
    let (direct_world, applied) =
        direct.add_to_entity(direct_root, direct_world, &vec![direct_root]);
    assert_eq!(applied, Ok(()));

    let (outcome, _) =
        process(&mut fixture, IntermediateDynamicPrefab::new(vec![vec![(uuid, value)]]));
    let prefab = loaded(outcome);
    assert_eq!(payloads(&prefab), vec![vec![direct]]);
    let root = fixture.world.spawn();
    fixture.system.mark_inserted(root);
    let made = instantiate(&mut fixture, root, &prefab).unwrap();

    assert_eq!(direct_root, root);
    assert_eq!(made.failures, vec![vec![]]);
    assert_eq!(fixture.world, direct_world);
    assert_eq!(fixture.world.positions, vec![(root, -4, 11)]);
}

#[test]
fn payload_that_fails_to_apply_is_skipped_and_the_rest_applied() {
    let mut fixture = fixture();
    let prefab = IntermediateDynamicPrefab::new(vec![
        vec![name("forbidden"), position(1, 1)],
        vec![position(2, 2), name("forbidden"), name("fine")],
    ]);
    let (outcome, _) = process(&mut fixture, prefab);
    let prefab = loaded(outcome);

    let root = fixture.world.spawn();
    fixture.system.mark_inserted(root);
    let made = instantiate(&mut fixture, root, &prefab).unwrap();

    assert_eq!(
        made.failures,
        vec![
            vec![ApplyError {
                attribute: 0,
                error: "entity 0 may not be called that".to_string()
            }],
            vec![ApplyError {
                attribute: 1,
                error: "entity 1 may not be called that".to_string()
            }],
        ]
    );
    assert_eq!(fixture.world.positions, vec![(0, 1, 1), (1, 2, 2)]);
    assert_eq!(fixture.world.names, vec![(1, "fine".to_string())]);
}

#[test]
fn entity_that_does_not_wait_is_not_instantiated() {
    let mut fixture = fixture();
    let (outcome, _) =
        process(&mut fixture, IntermediateDynamicPrefab::new(vec![vec![position(1, 2)], vec![]]));
    let prefab = loaded(outcome);

    let root = fixture.world.spawn();
    assert!(!fixture.system.pending(root));
    assert!(instantiate(&mut fixture, root, &prefab).is_none());
    assert_eq!(fixture.world.entities, 1);
    assert!(fixture.world.positions.is_empty());
}

#[test]
fn end_of_pass_clears_only_what_was_instantiated() {
    let mut fixture = fixture();
    let (outcome, _) =
        process(&mut fixture, IntermediateDynamicPrefab::new(vec![vec![position(1, 2)]]));
    let prefab = loaded(outcome);

    fixture.system.mark_inserted(7);
    fixture.system.mark_inserted(9);
    fixture.system.mark_inserted(7);
    assert!(fixture.system.pending(7));
    assert!(fixture.system.pending(9));
    assert!(!fixture.system.pending(8));

    assert!(instantiate(&mut fixture, 7, &prefab).is_some());
    assert!(fixture.system.pending(7));
    fixture.system.end_pass();
    assert!(!fixture.system.pending(7));
    assert!(fixture.system.pending(9));

    assert!(instantiate(&mut fixture, 7, &prefab).is_none());
    fixture.system.end_pass();
    assert!(fixture.system.pending(9));
    assert_eq!(fixture.world.positions, vec![(7, 1, 2)]);
}

#[test]
fn prefab_stays_loading_until_its_nested_loads_are_done() {
    let mut fixture = fixture();
    let prefab = IntermediateDynamicPrefab::new(vec![
        vec![sprite("a.png"), position(0, 1)],
        vec![sprite("bc.png")],
    ]);
    let (outcome, _) = process(&mut fixture, prefab);
    let mut prefab = still_loading(outcome);
    assert_eq!(prefab.progress().loading.get(), 2);

    for _ in 0..3 {
        let (outcome, _) = process(&mut fixture, prefab);
        prefab = still_loading(outcome);
    }
    prefab.progress().loading.set(0);
    let (outcome, _) = process(&mut fixture, prefab);
    let prefab = loaded(outcome);

    let root = fixture.world.spawn();
    fixture.system.mark_inserted(root);
    let made = instantiate(&mut fixture, root, &prefab).unwrap();
    assert_eq!(made.failures, vec![vec![], vec![]]);
    assert_eq!(fixture.world.sprites, vec![(0, 5), (1, 6)]);
}

#[test]
fn resolve_entity_keeps_payloads_in_the_order_of_the_attributes() {
    let calls = Rc::new(Cell::new(0));
    let mut registry: SerializerMap<Deserializer> = SerializerMap::new();
    registry.insert(key(POSITION), Deserializer::Position(calls.clone()));
    registry.insert(key(NAME), Deserializer::Name(calls.clone()));

    let (typed, dropped) = resolve_entity(
        vec![name("a"), position(1, 2), sprite("s.png"), name("b"), (key(NAME), json("3"))],
        &registry,
    );
    assert_eq!(
        typed,
        vec![
            Attribute::Name("a".to_string()),
            Attribute::Position { x: 1, y: 2 },
            Attribute::Name("b".to_string()),
        ]
    );
    assert_eq!(
        dropped,
        vec![
            DroppedAttribute {
                attribute: 2,
                uuid: key(SPRITE),
                reason: DropReason::Unregistered
            },
            DroppedAttribute {
                attribute: 4,
                uuid: key(NAME),
                reason: DropReason::Malformed("not a name: 3".to_string()),
            },
        ]
    );
    assert_eq!(calls.get(), 4);

    let (typed, dropped) = resolve_entity(vec![], &registry);
    assert!(typed.is_empty());
    assert!(dropped.is_empty());
}

#[test]
fn sub_assets_of_an_entity_are_requested_in_order_until_one_fails() {
    let entity = vec![
        Attribute::Sprite { file: "first.png".to_string(), handle: None },
        Attribute::Position { x: 0, y: 0 },
        Attribute::Sprite { file: "one.png".to_string(), handle: None },
        Attribute::Name("n".to_string()),
    ];
    let (world, outcome) = load_entity_sub_assets(entity, Tracker::default(), World::default());
    let (after, tracker, requested) = outcome.unwrap();
    assert!(requested);
    assert_eq!(tracker.loading.get(), 2);
    assert_eq!(world.requests, vec!["first.png", "one.png"]);
    assert_eq!(
        after,
        vec![
            Attribute::Sprite { file: "first.png".to_string(), handle: Some(9) },
            Attribute::Position { x: 0, y: 0 },
            Attribute::Sprite { file: "one.png".to_string(), handle: Some(7) },
            Attribute::Name("n".to_string()),
        ]
    );

    let quiet = vec![Attribute::Position { x: 0, y: 0 }, Attribute::Name("n".to_string())];
    let (world, outcome) =
        load_entity_sub_assets(quiet.clone(), Tracker::default(), World::default());
    let (after, tracker, requested) = outcome.unwrap();
    assert!(!requested);
    assert_eq!(after, quiet);
    assert_eq!(tracker.loading.get(), 0);
    assert_eq!(world, World::default());

    let failing = vec![
        Attribute::Sprite { file: "one.png".to_string(), handle: None },
        Attribute::Sprite { file: String::new(), handle: None },
        Attribute::Sprite { file: "never.png".to_string(), handle: None },
    ];
    let (world, outcome) = load_entity_sub_assets(failing, Tracker::default(), World::default());
    assert_eq!(outcome.err(), Some("sprite without a file".to_string()));
    assert_eq!(world.requests, vec!["one.png"]);
}

#[test]
fn sub_assets_of_a_prefab_are_requested_entity_by_entity() {
    let mut fixture = fixture();
    let prefab = IntermediateDynamicPrefab::new(vec![
        vec![sprite("b.png"), sprite("a.png")],
        vec![],
        vec![position(1, 1), sprite("c.png")],
    ]);
    let (outcome, _) = process(&mut fixture, prefab);
    let prefab = still_loading(outcome);
    assert_eq!(fixture.world.requests, vec!["b.png", "a.png", "c.png"]);
    assert_eq!(prefab.progress().loading.get(), 3);

    let (outcome, _) = process(&mut fixture, prefab);
    still_loading(outcome);
    assert_eq!(fixture.world.requests, vec!["b.png", "a.png", "c.png"]);
}

#[test]
fn apply_entity_reports_failures_by_position() {
    let entities = vec![4, 5];
    let unloaded = Attribute::Sprite { file: "x.png".to_string(), handle: None };
    let (world, failures) = apply_entity(
        &vec![unloaded.clone(), Attribute::Position { x: 1, y: 2 }, unloaded],
        5,
        World::default(),
        &entities,
    );
    assert_eq!(
        failures,
        vec![
            ApplyError { attribute: 0, error: "sprite of entity 5 was never loaded".to_string() },
            ApplyError { attribute: 2, error: "sprite of entity 5 was never loaded".to_string() },
        ]
    );
    assert_eq!(world.positions, vec![(5, 1, 2)]);
    assert_eq!(world.seen, vec![vec![4, 5], vec![4, 5], vec![4, 5]]);

    let (world, failures) = apply_entity::<World, Attribute>(&vec![], 4, world, &entities);
    assert!(failures.is_empty());
    assert_eq!(world.seen.len(), 3);
}

#[test]
fn payloads_are_applied_in_the_order_of_records_and_attributes() {
    let mut fixture = fixture();
    let prefab = IntermediateDynamicPrefab::new(vec![
        vec![name("a"), name("b")],
        vec![name("c")],
        vec![],
        vec![name("d"), name("e")],
    ]);
    let (outcome, _) = process(&mut fixture, prefab);
    let prefab = loaded(outcome);
    let root = fixture.world.spawn();
    fixture.system.mark_inserted(root);
    let tags_before = fixture.world.tags.len();
    let made = instantiate(&mut fixture, root, &prefab).unwrap();

    assert_eq!(made.entities, vec![0, 1, 2, 3]);
    assert_eq!(fixture.world.tags.len(), tags_before + 3);
    let names: Vec<(u32, &str)> =
        fixture.world.names.iter().map(|(entity, name)| (*entity, name.as_str())).collect();
    assert_eq!(names, vec![(0, "a"), (0, "b"), (1, "c"), (3, "d"), (3, "e")]);
    assert!(fixture.world.seen.iter().all(|entities| *entities == vec![0, 1, 2, 3]));
}

#[test]
fn loaded_prefab_is_the_intermediate_one_with_tag_and_payloads() {
    let mut prefab: IntermediateDynamicPrefab<Attribute> =
        IntermediateDynamicPrefab::new(vec![vec![position(1, 2)], vec![]]);
    assert!(prefab.assign_tag(41));
    assert!(!prefab.assign_tag(42));
    assert_eq!(prefab.tag(), Some(41));

    let mut registry: SerializerMap<Deserializer> = SerializerMap::new();
    registry.insert(key(POSITION), Deserializer::Position(Rc::new(Cell::new(0))));
    let (prefab, dropped) = prefab.deserialize(&registry);
    assert_eq!(dropped, vec![vec![], vec![]]);
    assert_eq!(prefab.tag(), Some(41));

    let prefab = DynamicPrefab::from(prefab);
    assert_eq!(prefab.tag(), 41);
    assert_eq!(prefab.len(), 2);
    assert_eq!(*prefab.entity(0), vec![Attribute::Position { x: 1, y: 2 }]);
    assert!(prefab.entity(1).is_empty());
}

#[test]
fn only_inserted_references_make_an_entity_wait() {
    let mut fixture = fixture();
    fixture.system.read_events(&vec![
        ComponentEvent::Modified(1),
        ComponentEvent::Inserted(2),
        ComponentEvent::Removed(3),
        ComponentEvent::Inserted(5),
        ComponentEvent::Inserted(2),
    ]);
    assert!(!fixture.system.pending(1));
    assert!(fixture.system.pending(2));
    assert!(!fixture.system.pending(3));
    assert!(fixture.system.pending(5));

    fixture.system.read_events(&vec![]);
    fixture.system.read_events(&vec![ComponentEvent::Removed(2)]);
    assert!(fixture.system.pending(2));
    assert!(fixture.system.pending(5));
    assert!(!fixture.system.pending(0));
}

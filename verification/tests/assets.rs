use ohl_engine::assets::{AssetSource, MemoryAssets};
use ohl_engine::events::{take_teleports, StepEvent};

#[test]
fn memory_assets_match_paths_without_regard_to_ascii_case() {
    let mut assets = MemoryAssets::new();
    assets.insert("Maps/Foo.BSP", vec![1, 2, 3]);
    assert_eq!(assets.read("maps/foo.bsp"), Some(vec![1, 2, 3]));
    assert_eq!(assets.read("MAPS/FOO.BSP"), Some(vec![1, 2, 3]));
    assert_eq!(assets.read("maps/bar.bsp"), None);
}

#[test]
fn a_later_insert_replaces_the_earlier_bytes() {
    let mut assets = MemoryAssets::new();
    assets.insert("models/a.mdl", vec![1]);
    assets.insert("MODELS/A.MDL", vec![2]);
    assert_eq!(assets.read("models/a.mdl"), Some(vec![2]));
    assert!(assets.resolve_wads("halflife.wad").is_empty());
}

#[test]
fn a_copied_table_reads_the_same_and_stays_independent() {
    let mut assets = MemoryAssets::new();
    assets.insert("maps/a.bsp", vec![7]);
    let mut copy = assets.clone();
    assert_eq!(copy.read("MAPS/A.BSP"), Some(vec![7]));
    copy.insert("maps/b.bsp", vec![8]);
    assert_eq!(assets.read("maps/b.bsp"), None);
}

#[test]
fn an_empty_table_reads_nothing() {
    let assets = MemoryAssets::default();
    assert_eq!(assets.read("maps/anything.bsp"), None);
}

#[test]
fn only_the_last_teleport_of_a_step_places_the_player() {
    let mut events: Vec<StepEvent<u32, &str>> = vec![
        StepEvent::Other("earlier"),
        StepEvent::Teleport(1),
        StepEvent::Other("message"),
        StepEvent::Teleport(2),
        StepEvent::Other("sound"),
    ];
    let destination = take_teleports(&mut events, 1);
    assert_eq!(destination, Some(2));
    assert_eq!(
        events,
        vec![StepEvent::Other("earlier"), StepEvent::Other("message"), StepEvent::Other("sound")]
    );
    let mut quiet: Vec<StepEvent<u32, &str>> = vec![StepEvent::Teleport(9), StepEvent::Other("x")];
    assert_eq!(take_teleports(&mut quiet, 1), None, "a teleport before the step is not this step's");
    assert_eq!(quiet, vec![StepEvent::Teleport(9), StepEvent::Other("x")]);
}

#[test]
fn taking_teleports_past_the_end_of_the_queue_takes_nothing() {
    let mut events: Vec<StepEvent<u32, &str>> = vec![StepEvent::Teleport(3), StepEvent::Other("x")];
    assert_eq!(take_teleports(&mut events, 5), None);
    assert_eq!(events, vec![StepEvent::Teleport(3), StepEvent::Other("x")]);
}

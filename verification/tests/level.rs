use ohl_engine::assets::MemoryAssets;
use ohl_engine::error::EngineError;
use ohl_engine::level::{
    external_texture_path, keyvalue_body, keyvalue_index, map_asset_path, map_bytes, read_map,
    sprite_key, studio_model_key, wants_studio_model, AssetCache, CacheSlot, ModelKeyvalue, ModelPlacer,
    MAX_SPRITE_ASSETS, MAX_STUDIO_MODELS,
};

/// One entity's studio-model placement through `cache`, with `published`
/// telling whether the payload holds (and parses) a model at that key.
/// Returns the model slot placed and whether the entity counted missing.
fn resolve(
    cache: &mut AssetCache,
    classname: &str,
    model: Option<ModelKeyvalue>,
    default_model: Option<&str>,
    published: &[&str],
) -> (Option<usize>, bool) {
    let taken = std::mem::replace(cache, AssetCache::new(0));
    let mut placer = ModelPlacer::new(taken, 0);
    let key = studio_model_key(classname, &model, default_model);
    let loaded = key.as_deref().is_some_and(|k| placer.needs_load(k) && published.contains(&k));
    let (placed_key, slot) = placer.place(classname, &model, default_model, loaded);
    assert_eq!(placed_key, key, "the pass resolves the key as studio_model_key does");
    let (back, def_indices, slots, missing) = placer.finish();
    *cache = back;
    assert_eq!(def_indices.len(), slots.len());
    assert_eq!(slot.is_some(), def_indices == vec![0]);
    (slot, missing == 1)
}

#[test]
fn prop_outside_legacy_prefixes_resolves_with_keyvalues() {
    let mut cache = AssetCache::new(MAX_STUDIO_MODELS);
    let (slot, missing) = resolve(
        &mut cache,
        "monster_generic",
        Some(ModelKeyvalue::Asset("models/ohl_prop.mdl".to_string())),
        None,
        &["models/ohl_prop.mdl"],
    );
    assert!(!missing);
    assert_eq!(cache.loaded_count(), 1);
    assert_eq!(slot, Some(0));
    assert_eq!(keyvalue_index(Some("2")), 2);
    assert_eq!(keyvalue_body(Some("5")), 5);
    assert_eq!(keyvalue_index(Some("1")), 1);
}

#[test]
fn monster_with_no_model_keyvalue_resolves_via_the_default_model_table() {
    let mut cache = AssetCache::new(MAX_STUDIO_MODELS);
    let (slot, missing) =
        resolve(&mut cache, "monster_zombie", None, Some("models/zombie.mdl"), &["models/zombie.mdl"]);
    assert!(!missing);
    assert_eq!(cache.loaded_count(), 1);
    assert_eq!(slot, Some(0));
}

#[test]
fn monster_with_no_model_keyvalue_and_no_payload_asset_counts_as_missing() {
    let mut cache = AssetCache::new(MAX_STUDIO_MODELS);
    let (slot, missing) = resolve(&mut cache, "monster_zombie", None, Some("models/zombie.mdl"), &[]);
    assert_eq!(cache.loaded_count(), 0);
    assert_eq!(slot, None);
    assert!(missing);
}

#[test]
fn monster_of_an_undefined_kind_with_no_model_keyvalue_is_not_counted_missing() {
    let mut cache = AssetCache::new(MAX_STUDIO_MODELS);
    let (slot, missing) = resolve(&mut cache, "monster_not_in_the_table", None, None, &[]);
    assert_eq!(cache.loaded_count(), 0);
    assert_eq!(slot, None);
    assert!(!missing);
}

#[test]
fn sprite_only_classnames_are_not_studio_props() {
    let mut cache = AssetCache::new(MAX_STUDIO_MODELS);
    let (slot, missing) = resolve(
        &mut cache,
        "env_sprite",
        Some(ModelKeyvalue::Asset("sprites/ohl_glow.mdl".to_string())),
        None,
        &["sprites/ohl_glow.mdl"],
    );
    assert_eq!(cache.loaded_count(), 0);
    assert_eq!(slot, None);
    assert!(!missing);
    assert!(!wants_studio_model("env_sprite"));
    assert!(!wants_studio_model("env_glow"));
    assert!(!wants_studio_model("cycler_sprite"));
    assert!(wants_studio_model("cycler"));
    assert!(wants_studio_model("item_healthkit"));
}

#[test]
fn model_keys_are_lower_cased_and_must_name_an_mdl() {
    assert_eq!(
        studio_model_key("prop_x", &Some(ModelKeyvalue::Asset("Models/Barney.MDL".to_string())), None),
        Some("models/barney.mdl".to_string())
    );
    assert_eq!(
        studio_model_key("env_model", &Some(ModelKeyvalue::Asset("sprites/glow.spr".to_string())), None),
        None
    );
    assert_eq!(studio_model_key("func_door", &Some(ModelKeyvalue::Brush), None), None);
    assert_eq!(studio_model_key("item_battery", &None, Some("models/w_battery.mdl")), None);
}

#[test]
fn a_path_is_tried_once_and_shares_its_model() {
    let mut cache = AssetCache::new(MAX_STUDIO_MODELS);
    let model = Some(ModelKeyvalue::Asset("models/a.mdl".to_string()));
    let (first, _) = resolve(&mut cache, "prop_a", model.clone(), None, &["models/a.mdl"]);
    let (second, missing) = resolve(&mut cache, "prop_b", model, None, &[]);
    assert_eq!(first, Some(0));
    assert_eq!(second, Some(0), "the cached slot is reused");
    assert!(!missing);
    assert_eq!(cache.loaded_count(), 1);

    let absent = Some(ModelKeyvalue::Asset("models/missing.mdl".to_string()));
    let (_, missing_first) = resolve(&mut cache, "prop_c", absent.clone(), None, &[]);
    let (_, missing_again) = resolve(&mut cache, "prop_d", absent, None, &["models/missing.mdl"]);
    assert!(missing_first);
    assert!(!missing_again, "a missing path is counted once");
}

#[test]
fn no_more_than_the_model_cap_is_ever_loaded() {
    let mut cache = AssetCache::new(MAX_STUDIO_MODELS);
    for i in 0..MAX_STUDIO_MODELS {
        let path = format!("models/m{i}.mdl");
        assert_eq!(cache.lookup(&path), CacheSlot::Load);
        assert_eq!(cache.record(&path, true), Some(i));
    }
    assert_eq!(cache.lookup("models/one_more.mdl"), CacheSlot::Full);
    assert_eq!(cache.record("models/one_more.mdl", true), None);
    assert_eq!(cache.loaded_count(), MAX_STUDIO_MODELS);
    assert_eq!(cache.lookup("models/m3.mdl"), CacheSlot::Cached(Some(3)));
    assert_eq!(cache.lookup("models/one_more.mdl"), CacheSlot::Cached(None));
}

#[test]
fn the_external_texture_file_sits_beside_the_model() {
    assert_eq!(external_texture_path("models/foo.mdl"), Some("models/foot.mdl".to_string()));
    assert_eq!(external_texture_path(".mdl"), Some("t.mdl".to_string()));
    assert_eq!(external_texture_path("models/foo.spr"), None);
    assert_eq!(external_texture_path("mdl"), None);
}

#[test]
fn numeric_keyvalues_are_trimmed_and_default_to_zero() {
    assert_eq!(keyvalue_index(Some("  12\t")), 12);
    assert_eq!(keyvalue_index(Some("+7")), 7);
    assert_eq!(keyvalue_index(Some("-1")), 0);
    assert_eq!(keyvalue_index(Some("3x")), 0);
    assert_eq!(keyvalue_index(Some("")), 0);
    assert_eq!(keyvalue_index(Some("+")), 0);
    assert_eq!(keyvalue_index(None), 0);
    assert_eq!(keyvalue_body(Some("4294967295")), u32::MAX);
    assert_eq!(keyvalue_body(Some("4294967296")), 0, "a body past u32 does not parse");
    assert_eq!(keyvalue_body(Some("\u{a0}9\u{3000}")), 9);
}

#[test]
fn sprites_come_only_from_sprite_classnames_naming_an_spr() {
    let glow = Some(ModelKeyvalue::Asset("Sprites/OHL_Glow.SPR".to_string()));
    assert_eq!(sprite_key("env_glow", &glow), Some("sprites/ohl_glow.spr".to_string()));
    assert_eq!(sprite_key("env_sprite", &glow), Some("sprites/ohl_glow.spr".to_string()));
    assert_eq!(sprite_key("monster_generic", &glow), None, "only sprite classnames place sprites");
    let model = Some(ModelKeyvalue::Asset("sprites/ohl_glow.mdl".to_string()));
    assert_eq!(sprite_key("env_sprite", &model), None, "a .mdl is not a sprite either");
    assert_eq!(sprite_key("cycler_sprite", &None), None);
}

#[test]
fn a_sprite_cache_caps_at_its_own_limit() {
    let mut cache = AssetCache::new(MAX_SPRITE_ASSETS);
    for i in 0..MAX_SPRITE_ASSETS {
        assert_eq!(cache.record(&format!("sprites/s{i}.spr"), true), Some(i));
    }
    assert_eq!(cache.lookup("sprites/extra.spr"), CacheSlot::Full);
}

#[test]
fn a_level_change_extends_the_cache_it_already_built() {
    let loaded = vec!["models/a.mdl".to_string(), "models/b.mdl".to_string()];
    let mut cache = AssetCache::from_loaded(&loaded, MAX_STUDIO_MODELS);
    assert_eq!(cache.loaded_count(), 2);
    assert_eq!(cache.lookup("models/b.mdl"), CacheSlot::Cached(Some(1)));
    assert_eq!(cache.lookup("models/c.mdl"), CacheSlot::Load);
    assert_eq!(cache.record("models/c.mdl", true), Some(2));

    let twice = vec!["models/a.mdl".to_string(), "models/a.mdl".to_string()];
    let cache = AssetCache::from_loaded(&twice, MAX_STUDIO_MODELS);
    assert_eq!(cache.lookup("models/a.mdl"), CacheSlot::Cached(Some(1)), "the last slot wins");
}

#[test]
fn a_loaded_model_is_found_by_its_path_in_any_case() {
    let loaded = vec!["models/v_tripmine.mdl".to_string(), "models/w_satchel.mdl".to_string()];
    let cache = AssetCache::from_loaded(&loaded, MAX_STUDIO_MODELS);
    assert_eq!(cache.find_loaded("Models/W_Satchel.MDL"), Some(1));
    assert_eq!(cache.find_loaded("models/rpgrocket.mdl"), None);
}

#[test]
fn an_extension_that_merely_starts_with_mdl_or_spr_is_not_kept() {
    let longer = Some(ModelKeyvalue::Asset("models/x.mdlx".to_string()));
    assert_eq!(studio_model_key("monster_generic", &longer, None), None);
    let sprite = Some(ModelKeyvalue::Asset("sprites/x.sprite".to_string()));
    assert_eq!(sprite_key("env_sprite", &sprite), None);
    let dotted = Some(ModelKeyvalue::Asset("models/.mdl".to_string()));
    assert_eq!(studio_model_key("cycler", &dotted, None), None, "a bare .mdl has no extension");
}

#[test]
fn settling_a_cached_full_or_failed_asset() {
    let mut cache = AssetCache::new(1);
    assert_eq!(cache.settle("models/a.mdl", true), (Some(0), false));
    assert_eq!(cache.settle("models/a.mdl", false), (Some(0), false), "a tried path keeps its slot");
    assert_eq!(cache.settle("models/b.mdl", true), (None, true), "a full cache counts it missing");
    assert_eq!(cache.settle("models/b.mdl", true), (None, false), "and only once");
    let mut roomy = AssetCache::new(4);
    assert_eq!(roomy.settle("models/broken.mdl", false), (None, true));
    assert_eq!(roomy.loaded_count(), 0);
}

#[test]
fn a_map_is_read_from_its_maps_path() {
    assert_eq!(map_asset_path("c0a0"), "maps/c0a0.bsp");
    let mut assets = MemoryAssets::new();
    assets.insert("maps/c0a0.bsp", vec![30, 0, 0, 0]);
    assert_eq!(read_map(&assets, "c0a0"), Ok(vec![30, 0, 0, 0]));
    assert_eq!(read_map(&assets, "C0A0"), Ok(vec![30, 0, 0, 0]));
    assert_eq!(read_map(&assets, "c1a0"), Err(EngineError::MapNotFound));
    assert_eq!(map_bytes(None), Err(EngineError::MapNotFound));
    assert_eq!(map_bytes(Some(vec![1])), Ok(vec![1]));
}

#[test]
fn a_placement_pass_pairs_placed_definitions_with_their_slots() {
    let mut placer = ModelPlacer::new(AssetCache::new(MAX_STUDIO_MODELS), 10);
    let a = Some(ModelKeyvalue::Asset("models/a.mdl".to_string()));
    let glow = Some(ModelKeyvalue::Asset("sprites/glow.mdl".to_string()));
    let gone = Some(ModelKeyvalue::Asset("models/gone.mdl".to_string()));

    assert!(placer.needs_load("models/a.mdl"));
    assert_eq!(placer.place("prop_a", &a, None, true), (Some("models/a.mdl".to_string()), Some(0)));
    assert_eq!(placer.place("env_sprite", &glow, None, true), (None, None));
    assert!(!placer.needs_load("models/a.mdl"), "a tried path is not read again");
    assert_eq!(placer.place("prop_b", &a, None, false), (Some("models/a.mdl".to_string()), Some(0)));
    assert_eq!(placer.place("prop_c", &gone, None, false), (Some("models/gone.mdl".to_string()), None));
    assert_eq!(placer.place("prop_d", &gone, None, false).1, None);

    let (cache, def_indices, slots, missing) = placer.finish();
    assert_eq!(def_indices, vec![10, 12]);
    assert_eq!(slots, vec![0, 0]);
    assert_eq!(missing, 1, "a missing path counts once");
    assert_eq!(cache.loaded_count(), 1);
}

#[test]
fn a_full_cache_places_nothing_new_and_counts_it_missing() {
    let mut placer = ModelPlacer::new(AssetCache::new(1), 0);
    let a = Some(ModelKeyvalue::Asset("models/a.mdl".to_string()));
    let b = Some(ModelKeyvalue::Asset("models/b.mdl".to_string()));
    assert_eq!(placer.place("cycler", &a, None, true).1, Some(0));
    assert!(!placer.needs_load("models/b.mdl"), "no room is left to read another");
    assert_eq!(placer.place("cycler", &b, None, true).1, None);
    let (_, def_indices, slots, missing) = placer.finish();
    assert_eq!(def_indices, vec![0]);
    assert_eq!(slots, vec![0]);
    assert_eq!(missing, 1);
}

#[test]
fn a_monster_without_a_model_keyvalue_settles_its_default_model_as_a_cached_miss() {
    let mut placer = ModelPlacer::new(AssetCache::new(MAX_STUDIO_MODELS), 0);
    assert!(placer.needs_load("models/zombie.mdl"));
    let (key, slot) = placer.place("monster_zombie", &None, Some("models/zombie.mdl"), false);
    assert_eq!(key, Some("models/zombie.mdl".to_string()));
    assert_eq!(slot, None);
    let (cache, def_indices, slots, missing) = placer.finish();
    assert!(def_indices.is_empty() && slots.is_empty());
    assert_eq!(missing, 1);
    assert_eq!(cache.lookup("models/zombie.mdl"), CacheSlot::Cached(None));
    assert_eq!(cache.loaded_count(), 0);
}

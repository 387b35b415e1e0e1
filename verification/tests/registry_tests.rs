use baldej::string_map::StrMap;
use baldej::assets::{AssetManager, AssetManagerError};
use baldej::objects::{add_to_group, remove_from_group, ObjectGroup, ObjectRegistry};

#[test]
fn str_map_insert_get_remove() {
    let mut m: StrMap<u32> = StrMap::new();
    assert_eq!(m.len(), 0);
    m.insert("a".to_string(), 1);
    m.insert("b".to_string(), 2);
    m.insert("a".to_string(), 3);
    assert_eq!(m.len(), 2);
    assert_eq!(m.get("a"), Some(&3));
    assert_eq!(m.get("b"), Some(&2));
    assert_eq!(m.get("c"), None);
    assert!(m.contains_key("b"));
    assert_eq!(m.remove("a"), Some(3));
    assert_eq!(m.remove("a"), None);
    assert!(!m.contains_key("a"));
    assert_eq!(m.len(), 1);
}

#[test]
fn str_map_insert_new_refuses_taken_key() {
    let mut m: StrMap<u32> = StrMap::new();
    assert_eq!(m.insert_new("k".to_string(), 1), Ok(()));
    assert_eq!(m.insert_new("k".to_string(), 2), Err(2));
    assert_eq!(m.get("k"), Some(&1));
}

#[test]
fn str_map_get_mut_changes_in_place() {
    let mut m: StrMap<u32> = StrMap::new();
    m.insert("x".to_string(), 5);
    if let Some(v) = m.get_mut("x") {
        *v = 9;
    }
    assert_eq!(m.get("x"), Some(&9));
    assert!(m.get_mut("y").is_none());
}

#[test]
fn str_map_merge_prefers_the_merged_values() {
    let mut a: StrMap<u32> = StrMap::new();
    a.insert("one".to_string(), 1);
    a.insert("two".to_string(), 2);
    let mut b: StrMap<u32> = StrMap::new();
    b.insert("two".to_string(), 20);
    b.insert("three".to_string(), 30);
    a.merge(b);
    assert_eq!(a.len(), 3);
    assert_eq!(a.get("one"), Some(&1));
    assert_eq!(a.get("two"), Some(&20));
    assert_eq!(a.get("three"), Some(&30));
}

#[test]
fn str_map_entries_keep_insertion_order() {
    let mut m: StrMap<u32> = StrMap::new();
    m.insert("z".to_string(), 1);
    m.insert("y".to_string(), 2);
    assert_eq!(m.find("y"), Some(1));
    let (k, v) = m.entry_at(0);
    assert_eq!(k.as_str(), "z");
    assert_eq!(*v, 1);
}

#[test]
fn assets_preload_once_then_refused() {
    let mut assets: AssetManager<u32, u32, u32, u32> = AssetManager::new();
    let id = assets.preload_sound_asset("step".to_string(), 7).unwrap();
    assert_eq!(id.get_id(), "step");
    assert_eq!(assets.get_sound_asset(&id), Some(&7));
    assert_eq!(
        assets.preload_sound_asset("step".to_string(), 8).err(),
        Some(AssetManagerError::AssetAlreadyLoaded)
    );
    assert_eq!(assets.get_sound_asset(&id), Some(&7));
}

#[test]
fn assets_model_loader_failure_and_success() {
    let mut assets: AssetManager<u32, u32, u32, u32> = AssetManager::new();
    assert_eq!(
        assets.preload_model_asset("tree".to_string(), || None).err(),
        Some(AssetManagerError::AssetCreationError)
    );
    assert!(assets.get_model_asset_id("tree").is_none());
    let id = assets.preload_model_asset("tree".to_string(), || Some(11)).unwrap();
    assert_eq!(assets.get_model_asset(&id), Some(&11));
    let mut called = false;
    let again = assets.preload_model_asset("tree".to_string(), || {
        called = true;
        Some(12)
    });
    assert_eq!(again.err(), Some(AssetManagerError::AssetAlreadyLoaded));
    assert!(!called);
}

#[test]
fn assets_background_model_is_replaced_when_loaded() {
    let mut assets: AssetManager<u32, u32, u32, u32> = AssetManager::new();
    let id = assets.background_preload_model_asset("rock".to_string(), 0).unwrap();
    assert_eq!(assets.get_model_asset(&id), Some(&0));
    assets.set_loaded_model_asset("rock".to_string(), 42);
    assert_eq!(assets.get_model_asset(&id), Some(&42));
    assert_eq!(
        assets.background_preload_model_asset("rock".to_string(), 1).err(),
        Some(AssetManagerError::AssetAlreadyLoaded)
    );
}

#[test]
fn assets_default_texture_and_ids() {
    let mut assets: AssetManager<u32, u32, u32, u32> = AssetManager::new();
    assert!(assets.get_default_texture_asset().is_none());
    let t = assets.preload_texture_asset("default".to_string(), 3).unwrap();
    assert_eq!(t.get_id(), "default");
    assert_eq!(assets.get_default_texture_asset(), Some(&3));
    assert_eq!(assets.get_texture_asset(&t), Some(&3));
    let s = assets.preload_shader_asset("lit".to_string(), 4).unwrap();
    if let Some(shader) = assets.get_shader_asset_mut(&s) {
        *shader = 5;
    }
    assert_eq!(assets.get_shader_asset(&s), Some(&5));
    assert_eq!(assets.get_shader_asset_id("lit").unwrap().get_id(), "lit");
    assert!(assets.get_sound_asset_id("lit").is_none());
}

#[test]
fn object_ids_count_up() {
    let mut registry = ObjectRegistry::new();
    assert_eq!(registry.gen_object_id(), 1);
    assert_eq!(registry.gen_object_id(), 2);
    assert_eq!(registry.gen_object_id(), 3);
}

#[test]
fn object_registry_names_and_groups() {
    let mut registry = ObjectRegistry::new();
    assert_eq!(registry.get_object_name_with_id(1), None);
    registry.register_object_id_name(1, "player");
    registry.register_object_id_name(1, "hero");
    registry.register_object_id_system(1, "main");
    assert_eq!(registry.get_object_name_with_id(1).as_deref(), Some("hero"));
    let mut groups: Vec<ObjectGroup> = Vec::new();
    registry.add_to_group(1, &mut groups, "enemies");
    registry.add_to_group(1, &mut groups, "flying");
    registry.add_to_group(1, &mut groups, "enemies");
    let names: Vec<String> = registry
        .get_object_groups_with_id(1)
        .unwrap()
        .iter()
        .map(|g| g.as_raw().to_string())
        .collect();
    assert_eq!(names, vec!["enemies", "flying", "enemies"]);
    registry.remove_from_group(1, &mut groups, "enemies");
    let names: Vec<String> = registry
        .get_object_groups_with_id(1)
        .unwrap()
        .iter()
        .map(|g| g.0.clone())
        .collect();
    assert_eq!(names, vec!["flying"]);
    assert!(registry.get_object_groups_with_id(2).is_none());
}

#[test]
fn group_add_then_remove_leaves_others() {
    let mut groups = vec![ObjectGroup("a".to_string()), ObjectGroup("b".to_string())];
    add_to_group(&mut groups, "c");
    remove_from_group(&mut groups, "c");
    let names: Vec<&str> = groups.iter().map(|g| g.as_raw()).collect();
    assert_eq!(names, vec!["a", "b"]);
}

#[test]
fn objects_are_found_by_group() {
    let mut registry = ObjectRegistry::new();
    let mut groups: Vec<ObjectGroup> = Vec::new();
    registry.add_to_group(7, &mut groups, "water");
    assert!(registry.is_object_in_group(7, "water"));
    assert!(!registry.is_object_in_group(7, "lava"));
    assert!(!registry.is_object_in_group(8, "water"));
    assert!(registry.any_object_in_group(&vec![3, 7], "water"));
    assert!(!registry.any_object_in_group(&vec![3, 8], "water"));
    assert!(!registry.any_object_in_group(&vec![], "water"));
}

#[test]
fn object_group_converts_from_and_into_string() {
    let group = ObjectGroup::from("enemies".to_string());
    assert_eq!(group.as_raw(), "enemies");
    let raw: String = group.into();
    assert_eq!(raw, "enemies");
    assert_eq!(ObjectGroup("players".to_string()).as_raw(), "players");
}

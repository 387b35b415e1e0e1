use baldej::saves::SavesManager;
use baldej::string_map::StrMap;

fn strings(v: &[String]) -> Vec<&str> {
    v.iter().map(|s| s.as_str()).collect()
}

#[test]
fn register_is_idempotent_and_unregister_removes() {
    let mut saves: SavesManager<u32> = SavesManager::new();
    saves.register_save_value("gold");
    saves.register_save_value("level");
    saves.register_save_value("gold");
    let mut globals: StrMap<Vec<u32>> = StrMap::new();
    globals.insert("gold".to_string(), vec![1]);
    globals.insert("level".to_string(), vec![2]);
    let plan = saves.new_save("slot", &globals);
    assert_eq!(strings(&plan.values_to_save), vec!["gold", "level"]);
    saves.unregister_save_value("gold");
    let plan = saves.save_game(&globals).unwrap();
    assert_eq!(strings(&plan.values_to_save), vec!["level"]);
}

#[test]
fn save_game_needs_a_current_save() {
    let saves: SavesManager<u32> = SavesManager::new();
    let globals: StrMap<Vec<u32>> = StrMap::new();
    assert!(saves.save_game(&globals).is_none());
    assert_eq!(saves.current_save_name(), None);
}

#[test]
fn save_plan_splits_present_and_missing() {
    let mut saves: SavesManager<u32> = SavesManager::new();
    saves.register_save_value("a");
    saves.register_save_value("b");
    saves.register_save_value("c");
    let mut globals: StrMap<Vec<u32>> = StrMap::new();
    globals.insert("c".to_string(), vec![3]);
    globals.insert("a".to_string(), vec![1]);
    let plan = saves.new_save("world", &globals);
    assert_eq!(plan.save_name, "world");
    assert_eq!(strings(&plan.values_to_save), vec!["a", "c"]);
    assert_eq!(strings(&plan.missing_values), vec!["b"]);
    assert_eq!(saves.current_save_name(), Some("world"));
}

#[test]
fn lazy_values_are_read_before_the_save() {
    let mut saves: SavesManager<u32> = SavesManager::new();
    assert_eq!(saves.load_lazy_value("x", |_s: &str, _n: &str| Some(vec![9])), None);
    saves.save_lazy_value("x", vec![1, 2]);
    assert_eq!(saves.load_lazy_value("x", |_s: &str, _n: &str| Some(vec![9])), Some(vec![1, 2]));
    let globals: StrMap<Vec<u32>> = StrMap::new();
    saves.new_save("slot", &globals);
    let read = saves.load_lazy_value("y", |s: &str, n: &str| {
        assert_eq!((s, n), ("slot", "y"));
        Some(vec![5])
    });
    assert_eq!(read, Some(vec![5]));
    assert_eq!(saves.lazy_values_map().get("x"), Some(&vec![1, 2]));
}

#[test]
fn load_save_reads_listed_values() {
    let mut saves: SavesManager<u32> = SavesManager::new();
    let loaded = saves
        .load_save(
            "slot",
            |s: &str| {
                assert_eq!(s, "slot");
                Some("[\"a\", \"missing\"]".to_string())
            },
            |_s: &str, n: &str| if n == "a" { Some(vec![1]) } else { None },
        )
        .unwrap();
    assert_eq!(loaded.len(), 1);
    assert_eq!(loaded.get("a"), Some(&vec![1]));
    assert_eq!(saves.current_save_name(), Some("slot"));
}

#[test]
fn load_save_fails_where_the_list_cannot_be_read() {
    let mut saves: SavesManager<u32> = SavesManager::new();
    let r = saves.load_save("gone", |_s: &str| None, |_s: &str, _n: &str| Some(vec![1]));
    assert!(r.is_err());
    assert_eq!(saves.current_save_name(), Some("gone"));
}

#[test]
fn load_save_fails_where_the_list_is_no_json_list() {
    let mut saves: SavesManager<u32> = SavesManager::new();
    let r = saves.load_save("slot", |_s: &str| Some("{\"a\": 1}".to_string()), |_s: &str, _n: &str| Some(vec![1]));
    assert!(r.is_err());
    let r = saves.load_save("slot", |_s: &str| Some("not json".to_string()), |_s: &str, _n: &str| Some(vec![1]));
    assert!(r.is_err());
    assert_eq!(saves.current_save_name(), Some("slot"));
}

#[test]
fn saved_list_of_names_is_read_back() {
    let mut saves: SavesManager<u32> = SavesManager::new();
    saves.register_save_value("gold");
    saves.register_save_value("missing");
    saves.register_save_value("level");
    let mut globals: StrMap<Vec<u32>> = StrMap::new();
    globals.insert("gold".to_string(), vec![10]);
    globals.insert("level".to_string(), vec![3]);
    let plan = saves.new_save("slot", &globals);
    let parsed: Vec<String> = serde_json::from_str(&plan.values_list_json).unwrap();
    assert_eq!(parsed, vec!["gold".to_string(), "level".to_string()]);
    let list = plan.values_list_json.clone();
    let mut other: SavesManager<u32> = SavesManager::new();
    let loaded = other
        .load_save("slot", |_s: &str| Some(list), |_s: &str, n: &str| globals.get(n).cloned())
        .unwrap();
    assert_eq!(loaded.len(), 2);
    assert_eq!(loaded.get("gold"), Some(&vec![10]));
    assert_eq!(loaded.get("level"), Some(&vec![3]));
    assert_eq!(loaded.get("missing"), None);
}

#[test]
fn empty_list_of_names_is_written_as_json() {
    let mut saves: SavesManager<u32> = SavesManager::new();
    let globals: StrMap<Vec<u32>> = StrMap::new();
    let plan = saves.new_save("slot", &globals);
    let parsed: Vec<String> = serde_json::from_str(&plan.values_list_json).unwrap();
    assert!(parsed.is_empty());
}

use admin_plugins::preferences::{
    from_loaded_ids, initialize, is_enabled, revert_enabled, set_enabled, sorted_ids,
};

#[test]
fn preference_file_serializes_sorted_ids() {
    let prefs = from_loaded_ids(&vec![76561198000000002_u64, 76561198000000001_u64]);
    let ids = sorted_ids(&prefs);
    assert_eq!(ids, vec![76561198000000001_u64, 76561198000000002_u64]);
    let mut table = toml::map::Map::new();
    table.insert(
        "enabled_steam_ids".to_string(),
        toml::Value::Array(ids.iter().map(|id| toml::Value::Integer(*id as i64)).collect()),
    );
    let serialized = toml::to_string(&toml::Value::Table(table)).unwrap();
    assert!(serialized.contains("76561198000000001"));
    assert!(serialized.contains("76561198000000002"));
}

#[test]
fn loading_drops_zero_and_duplicates() {
    let (prefs, count) = initialize(&vec![5, 0, 3, 5]);
    assert_eq!(count, 2);
    assert!(is_enabled(&prefs, 5));
    assert!(is_enabled(&prefs, 3));
    assert!(!is_enabled(&prefs, 0));
    assert!(!is_enabled(&prefs, 4));
    assert_eq!(sorted_ids(&prefs), vec![3, 5]);
}

#[test]
fn set_enabled_reports_changes() {
    let (mut prefs, _) = initialize(&vec![]);
    assert_eq!(set_enabled(&mut prefs, 0, true).unwrap_err(), "cannot persist ESP for SteamID64 0");
    assert_eq!(set_enabled(&mut prefs, 9, true), Ok(true));
    assert_eq!(set_enabled(&mut prefs, 9, true), Ok(false));
    assert!(is_enabled(&prefs, 9));
    assert_eq!(set_enabled(&mut prefs, 9, false), Ok(true));
    assert_eq!(set_enabled(&mut prefs, 9, false), Ok(false));
    assert!(!is_enabled(&prefs, 9));
}

#[test]
fn reverting_a_change_restores_the_preferences() {
    let (mut prefs, _) = initialize(&vec![1, 2]);
    assert_eq!(set_enabled(&mut prefs, 7, true), Ok(true));
    revert_enabled(&mut prefs, 7, true);
    assert_eq!(sorted_ids(&prefs), vec![1, 2]);
    assert_eq!(set_enabled(&mut prefs, 2, false), Ok(true));
    assert_eq!(sorted_ids(&prefs), vec![1]);
    revert_enabled(&mut prefs, 2, false);
    assert_eq!(sorted_ids(&prefs), vec![1, 2]);
}

#[test]
fn sorted_ids_of_many() {
    let ids: Vec<u64> = (1..=40).rev().map(|i| i * 1_000_003).collect();
    let prefs = from_loaded_ids(&ids);
    let sorted = sorted_ids(&prefs);
    let mut expected = ids.clone();
    expected.sort_unstable();
    assert_eq!(sorted, expected);
}

#[test]
fn the_latest_setting_of_an_id_wins() {
    let (mut prefs, _) = initialize(&vec![4]);
    for (id, on) in [(7, true), (4, false), (7, false), (9, true), (7, true), (4, true), (9, false)] {
        set_enabled(&mut prefs, id, on).unwrap();
    }
    assert!(is_enabled(&prefs, 7));
    assert!(is_enabled(&prefs, 4));
    assert!(!is_enabled(&prefs, 9));
    assert!(set_enabled(&mut prefs, 0, true).is_err());
    assert!(!is_enabled(&prefs, 0));
}

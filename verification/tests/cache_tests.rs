use venv_rs::cache::{sync_step, to_cache_path, SyncAction, VenvManager};
use venv_rs::codec::{decode_venv, encode_venv};
use venv_rs::metadata::MetadataBuilder;
use venv_rs::model::{Package, Venv};
use venv_rs::VenvError;

fn sample_venv(path: &str, name: &str, stamp: u64) -> Venv {
    let metadata = MetadataBuilder::new()
        .name("pip".to_string())
        .version("25.1.1".to_string())
        .add_dependencies(vec!["requests".to_string()])
        .build();
    let pkg = Package::new("pip", "25.1.1", 424, metadata, stamp);
    let bare = MetadataBuilder::new().build();
    let pkg2 = Package::new("", "", 5, bare, stamp.saturating_sub(3));
    Venv::new(
        name,
        "3.13.2".to_string(),
        2544,
        vec![pkg, pkg2],
        1,
        format!("{path}/bin"),
        path.to_string(),
    )
}

#[test]
fn saved_cache() {
    // the cached file is named after the environment
    let vm = VenvManager::new("/cache/venv_rs".to_string());
    let venv = sample_venv("/venvs/testenv", "testenv", 50);
    let cached_file = to_cache_path(&venv.path, &vm.cache_path).expect("a cache path");
    assert_eq!(cached_file, "/cache/venv_rs/testenv.bin");
}

#[test]
fn load_cache() {
    // what was encoded for the cache decodes to the same record
    let venv = sample_venv("/venvs/testenv", "testenv", 50);
    let bytes = encode_venv(&venv);
    let (decoded, used) = decode_venv(&bytes).expect("decoding an encoding must succeed");
    assert_eq!(used, bytes.len());
    assert_eq!(decoded, venv);
}

#[test]
fn venv_round_trip_keeps_absent_and_present_dependencies() {
    let with_deps = MetadataBuilder::new()
        .add_dependencies(vec![])
        .build();
    let without_deps = MetadataBuilder::new().build();
    let venv = Venv::new(
        "x",
        "3.12.0".to_string(),
        9,
        vec![
            Package::new("a", "1", 1, with_deps, 2),
            Package::new("b", "2", 3, without_deps, 4),
        ],
        2,
        "/v/x/bin".to_string(),
        "/v/x".to_string(),
    );
    let bytes = encode_venv(&venv);
    let (decoded, _) = decode_venv(&bytes).unwrap();
    assert_eq!(decoded.packages[0].metadata.dependencies, Some(vec![]));
    assert_eq!(decoded.packages[1].metadata.dependencies, None);
    assert_eq!(decoded, venv);
}

#[test]
fn decode_rejects_truncated_bytes() {
    let venv = sample_venv("/venvs/testenv", "testenv", 50);
    let mut bytes = encode_venv(&venv);
    bytes.truncate(bytes.len() - 1);
    assert!(matches!(decode_venv(&bytes), Err(VenvError::ParseError(_))));
}

#[test]
fn cache_not_stale() {
    let mut vm = VenvManager::new("/cache/venv_rs".to_string());
    let venv_path = ".venv/testenv";
    let venv = sample_venv(venv_path, "testenv", 50);
    vm.insert_venv(venv_path.to_string(), venv);
    // the probe reports nothing newer than what the parse recorded
    let res = vm.is_venv_stale(venv_path, 50);
    assert!(!res);
}

#[test]
fn cache_staleness_transitions() {
    let mut vm = VenvManager::new("/cache/venv_rs".to_string());
    let venv_path = "/venvs/testenv";
    // an uncached path is always stale
    assert!(vm.is_venv_stale(venv_path, 0));
    vm.insert_venv(venv_path.to_string(), sample_venv(venv_path, "testenv", 50));
    assert!(!vm.is_venv_stale(venv_path, 50));
    // a manifest touched after the parse marks the entry stale
    assert!(vm.is_venv_stale(venv_path, 51));
    // re-parsing with the newer timestamp clears it again
    vm.insert_venv(venv_path.to_string(), sample_venv(venv_path, "testenv", 51));
    assert!(!vm.is_venv_stale(venv_path, 51));
}

#[test]
fn cache_iterates_in_key_order_and_replaces_wholesale() {
    let mut vm = VenvManager::new("/c".to_string());
    vm.insert_venv("/venvs/b".to_string(), sample_venv("/venvs/b", "b", 1));
    vm.insert_venv("/venvs/a".to_string(), sample_venv("/venvs/a", "a", 2));
    vm.insert_venv("/venvs/c".to_string(), sample_venv("/venvs/c", "c", 3));
    let paths = vm.cached_paths();
    assert_eq!(
        paths,
        vec![
            "/venvs/a".to_string(),
            "/venvs/b".to_string(),
            "/venvs/c".to_string()
        ]
    );
    // replacement keeps a single entry per path
    vm.insert_venv("/venvs/b".to_string(), sample_venv("/venvs/b", "b2", 9));
    assert_eq!(vm.get_venvs().len(), 3);
    assert_eq!(vm.lookup("/venvs/b").unwrap().name, "b2");
    // eviction removes exactly the one entry
    vm.remove_venv("/venvs/a");
    assert!(vm.lookup("/venvs/a").is_none());
    assert_eq!(vm.get_venvs().len(), 2);
}

#[test]
fn sync_step_decisions() {
    let cached = sample_venv("/venvs/x", "x", 50);
    assert_eq!(
        sync_step(&cached, &Err(VenvError::StaleProbeFailure("/venvs/x".to_string()))),
        SyncAction::Remove
    );
    assert_eq!(sync_step(&cached, &Ok(51)), SyncAction::Reparse);
    assert_eq!(sync_step(&cached, &Ok(50)), SyncAction::Keep);
    assert_eq!(sync_step(&cached, &Ok(7)), SyncAction::Keep);
}

use storage_manager::admin::{select_entries, AdminEntry, AdminSource};
use storage_manager::config::{StorageConfig, VolumeConfig};
use storage_manager::diff::ConfigDiff;
use storage_manager::runtime::{
    fatal_at_startup, LoadOutcome, LoadPlan, RuntimeError, StorageRuntime,
};

fn s(x: &str) -> String {
    x.to_string()
}

fn volume(name: &str) -> VolumeConfig {
    VolumeConfig { name: s(name), backend: None, paths: None, required: false, rest: vec![] }
}

fn storage(name: &str, volume_id: &str, key_expr: &str) -> StorageConfig {
    StorageConfig { name: s(name), volume_id: s(volume_id), key_expr: s(key_expr), rest: vec![] }
}

fn runtime() -> StorageRuntime {
    StorageRuntime::new(s("storages"), s("pid1"), None)
}

fn loaded(path: &str) -> LoadOutcome {
    LoadOutcome::Created { lib_path: s(path) }
}

/// Stands in for the key-expression matcher: `**/storages/<name>` matches keys that end so.
fn ends_with_matches(entries: &Vec<AdminEntry>, suffix: &str) -> Vec<bool> {
    entries.iter().map(|e| e.key.ends_with(suffix)).collect()
}

fn volume_names(rt: &StorageRuntime) -> Vec<String> {
    let mut v: Vec<String> = rt.volumes.iter().map(|h| h.name.clone()).collect();
    v.sort();
    v
}

fn storage_keys(rt: &StorageRuntime) -> Vec<(String, String)> {
    let mut v: Vec<(String, String)> =
        rt.storages.iter().map(|h| (h.volume_id.clone(), h.name.clone())).collect();
    v.sort();
    v
}

#[test]
fn builtin_volume_present_at_startup() {
    let rt = runtime();
    assert_eq!(rt.volumes.len(), 1);
    assert_eq!(rt.volumes[0].name, "memory");
    assert_eq!(rt.volumes[0].lib_path, "<static-memory>");
    assert!(rt.storages.is_empty());
}

#[test]
fn status_key_layout() {
    let rt = runtime();
    assert_eq!(rt.status_key(), "/@/router/pid1/status/plugins/storages");
}

#[test]
fn memory_storage_scenario() {
    let mut rt = runtime();
    let s1 = storage("s1", "memory", "a/b/**");
    let plan = match rt.storage_plan(&s1) {
        Ok(p) => p,
        Err(_) => panic!("storage s1 should be accepted"),
    };
    assert_eq!(plan.admin_key, "/@/router/pid1/status/plugins/storages/storages/s1");
    assert_eq!(plan.worker, 0);
    assert!(matches!(rt.add_storage(&s1, Ok(())), Ok(0)));
    let prefix = rt.status_key();
    let entries = rt.admin_entries(&prefix);
    let m = ends_with_matches(&entries, "/storages/s1");
    let found = select_entries(&entries, &m);
    assert_eq!(found.len(), 1);
    assert!(matches!(found[0].source, AdminSource::StorageStatus(0)));

    assert!(matches!(rt.kill_volume(&volume("memory")), Err(RuntimeError::BuiltinVolume)));
    assert_eq!(rt.storages.len(), 1);

    assert_eq!(rt.kill_storage(&s1), Some(0));
    let entries = rt.admin_entries(&prefix);
    let m = ends_with_matches(&entries, "/storages/s1");
    assert_eq!(select_entries(&entries, &m).len(), 0);
}

#[test]
fn second_add_volume_fails() {
    let mut rt = runtime();
    let v = volume("v1");
    assert!(rt.add_volume(&v, loaded("/lib/zbackend_v1.so")).is_ok());
    match rt.add_volume(&v, loaded("/lib/other.so")) {
        Err(RuntimeError::VolumeAlreadyRegistered { volume }) => assert_eq!(volume, "v1"),
        _ => panic!("expected already registered"),
    }
    assert_eq!(rt.volumes.len(), 2);
    assert_eq!(rt.volumes[1].lib_path, "/lib/zbackend_v1.so");
    assert!(matches!(rt.volume_plan(&v), Err(RuntimeError::VolumeAlreadyRegistered { .. })));
}

#[test]
fn by_name_missing_library_names_the_file() {
    let mut rt = runtime();
    let mut v = volume("influx");
    v.backend = Some(s("influxdb"));
    match rt.volume_plan(&v) {
        Ok(LoadPlan::Search(f)) => assert_eq!(f, "zbackend_influxdb"),
        _ => panic!("expected a search by name"),
    }
    match rt.add_volume(&v, LoadOutcome::NoLibrary) {
        Err(RuntimeError::LibraryNotFoundByName { volume, filename }) => {
            assert_eq!(volume, "influx");
            assert_eq!(filename, "zbackend_influxdb");
        }
        _ => panic!("expected library not found"),
    }
    assert_eq!(volume_names(&rt), vec![s("memory")]);
}

#[test]
fn by_name_defaults_to_volume_name() {
    let rt = runtime();
    match rt.volume_plan(&volume("fs")) {
        Ok(LoadPlan::Search(f)) => assert_eq!(f, "zbackend_fs"),
        _ => panic!("expected a search by name"),
    }
}

#[test]
fn builtin_volume_cannot_be_added_twice() {
    let mut rt = runtime();
    assert!(matches!(
        rt.volume_plan(&volume("memory")),
        Err(RuntimeError::VolumeAlreadyRegistered { .. })
    ));
    assert!(rt.add_volume(&volume("memory"), loaded("x")).is_err());
    assert_eq!(rt.volumes.len(), 1);
}

#[test]
fn unknown_volume_removal_succeeds() {
    let mut rt = runtime();
    assert!(matches!(rt.kill_volume(&volume("ghost")), Ok(ws) if ws.is_empty()));
    assert_eq!(rt.volumes.len(), 1);
}

#[test]
fn replacing_a_volume_succeeds() {
    let mut rt = runtime();
    rt.add_volume(&volume("v1"), loaded("/l/a.so")).ok().unwrap();
    rt.add_storage(&storage("s1", "v1", "a/**"), Ok(())).ok().unwrap();
    assert_eq!(rt.kill_volume(&volume("v1")).ok(), Some(vec![0]));
    assert!(rt.add_volume(&volume("v1"), loaded("/l/b.so")).is_ok());
    assert_eq!(rt.add_storage(&storage("s2", "v1", "b/**"), Ok(())).ok(), Some(1));
    assert_eq!(storage_keys(&rt), vec![(s("v1"), s("s2"))]);
    assert_eq!(rt.volumes[1].lib_path, "/l/b.so");
}

#[test]
fn by_paths_errors_list_the_paths() {
    let mut rt = runtime();
    let mut v = volume("v2");
    v.paths = Some(vec![s("/a/lib1.so"), s("/b/lib2.so")]);
    match rt.volume_plan(&v) {
        Ok(LoadPlan::FromPaths(p)) => assert_eq!(p, vec![s("/a/lib1.so"), s("/b/lib2.so")]),
        _ => panic!("expected paths"),
    }
    match rt.add_volume(&v, LoadOutcome::NoLibrary) {
        Err(RuntimeError::LibraryNotFoundInPaths { volume, paths }) => {
            assert_eq!(volume, "v2");
            assert_eq!(paths, vec![s("/a/lib1.so"), s("/b/lib2.so")]);
        }
        _ => panic!("expected not found in paths"),
    }
}

#[test]
fn missing_symbol_is_reported() {
    let mut rt = runtime();
    match rt.add_volume(&volume("v3"), LoadOutcome::MissingSymbol { lib_path: s("/l/x.so") }) {
        Err(RuntimeError::SymbolMissing { volume, lib_path, symbol }) => {
            assert_eq!(volume, "v3");
            assert_eq!(lib_path, "/l/x.so");
            assert_eq!(symbol, "create_backend");
        }
        _ => panic!("expected missing symbol"),
    }
    assert_eq!(rt.volumes.len(), 1);
}

#[test]
fn backend_creation_error_passes_message() {
    let mut rt = runtime();
    let out = LoadOutcome::CreateFailed { lib_path: s("/l/y.so"), message: s("bad url") };
    match rt.add_volume(&volume("v4"), out) {
        Err(RuntimeError::BackendCreation { volume, lib_path, message }) => {
            assert_eq!(volume, "v4");
            assert_eq!(lib_path, "/l/y.so");
            assert_eq!(message, "bad url");
        }
        _ => panic!("expected creation error"),
    }
}

#[test]
fn storage_on_unknown_volume_is_refused() {
    let mut rt = runtime();
    let st = storage("s9", "nowhere", "x/**");
    match rt.add_storage(&st, Ok(())) {
        Err(RuntimeError::VolumeNotFound { volume }) => assert_eq!(volume, "nowhere"),
        _ => panic!("expected volume not found"),
    }
    assert!(rt.storages.is_empty());
    assert_eq!(rt.next_worker, 0);
}

#[test]
fn duplicate_storage_is_refused() {
    let mut rt = runtime();
    let st = storage("s1", "memory", "a/**");
    assert!(rt.add_storage(&st, Ok(())).is_ok());
    match rt.storage_plan(&st) {
        Err(RuntimeError::StorageAlreadyRegistered { volume, storage }) => {
            assert_eq!(volume, "memory");
            assert_eq!(storage, "s1");
        }
        _ => panic!("expected already registered"),
    }
    assert!(rt.add_storage(&st, Ok(())).is_err());
    assert_eq!(rt.storages.len(), 1);
}

#[test]
fn worker_start_failure_leaves_nothing() {
    let mut rt = runtime();
    let st = storage("s1", "memory", "a/**");
    match rt.add_storage(&st, Err(s("subscribe failed"))) {
        Err(RuntimeError::WorkerStart { message }) => assert_eq!(message, "subscribe failed"),
        _ => panic!("expected worker start error"),
    }
    assert!(rt.storages.is_empty());
    assert_eq!(rt.next_worker, 0);
}

#[test]
fn worker_numbers_exhausted() {
    let mut rt = runtime();
    rt.next_worker = u64::MAX;
    let st = storage("s1", "memory", "a/**");
    assert!(matches!(rt.add_storage(&st, Ok(())), Err(RuntimeError::WorkerNumbersExhausted)));
}

#[test]
fn kill_volume_returns_its_workers() {
    let mut rt = runtime();
    let v = volume("v1");
    rt.add_volume(&v, loaded("/l/v1.so")).ok().unwrap();
    assert_eq!(rt.add_storage(&storage("a", "v1", "a/**"), Ok(())).ok(), Some(0));
    assert_eq!(rt.add_storage(&storage("b", "memory", "b/**"), Ok(())).ok(), Some(1));
    assert_eq!(rt.add_storage(&storage("c", "v1", "c/**"), Ok(())).ok(), Some(2));
    let ws = match rt.kill_volume(&v) {
        Ok(ws) => ws,
        Err(_) => panic!("expected removal"),
    };
    assert_eq!(ws, vec![0, 2]);
    assert_eq!(volume_names(&rt), vec![s("memory")]);
    assert_eq!(storage_keys(&rt), vec![(s("memory"), s("b"))]);
    let entries = rt.admin_entries(&rt.status_key());
    assert!(entries
        .iter()
        .all(|e| !matches!(e.source, AdminSource::StorageStatus(0) | AdminSource::StorageStatus(2))));
}

#[test]
fn kill_unknown_storage_is_harmless() {
    let mut rt = runtime();
    assert_eq!(rt.kill_storage(&storage("zz", "memory", "z/**")), None);
    assert_eq!(rt.volumes.len(), 1);
}

#[test]
fn stopped_storage_has_no_status_and_number_not_reused() {
    let mut rt = runtime();
    let st = storage("s1", "memory", "a/**");
    rt.add_storage(&st, Ok(())).ok().unwrap();
    assert_eq!(rt.kill_storage(&st), Some(0));
    let entries = rt.admin_entries(&s("/k"));
    assert!(entries.iter().all(|e| !matches!(e.source, AdminSource::StorageStatus(0))));
    assert_eq!(rt.add_storage(&st, Ok(())).ok(), Some(1));
}

#[test]
fn admin_entries_in_order() {
    let mut rt = runtime();
    rt.add_volume(&volume("v1"), loaded("/l/v1.so")).ok().unwrap();
    rt.add_storage(&storage("s1", "v1", "a/**"), Ok(())).ok().unwrap();
    let keys: Vec<String> = rt.admin_entries(&s("/p")).iter().map(|e| e.key.clone()).collect();
    assert_eq!(
        keys,
        vec![
            s("/p/version"),
            s("/p/volumes/memory/__path__"),
            s("/p/volumes/memory"),
            s("/p/volumes/v1/__path__"),
            s("/p/volumes/v1"),
            s("/p/storages/s1"),
        ]
    );
    let entries = rt.admin_entries(&s("/p"));
    assert!(matches!(&entries[3].source, AdminSource::LibPath(p) if p == "/l/v1.so"));
    assert!(matches!(&entries[4].source, AdminSource::BackendStatus(v) if v == "v1"));
}

#[test]
fn select_keeps_flagged_entries() {
    let rt = runtime();
    let entries = rt.admin_entries(&s("/p"));
    let picked = select_entries(&entries, &vec![false, true, false]);
    assert_eq!(picked.len(), 1);
    assert_eq!(picked[0].key, "/p/volumes/memory/__path__");
}

#[test]
fn startup_fatality() {
    let mut req = volume("v1");
    req.required = true;
    let e = RuntimeError::LibraryNotFoundByName { volume: s("v1"), filename: s("zbackend_v1") };
    assert!(fatal_at_startup(&ConfigDiff::AddVolume(req), &e));
    assert!(!fatal_at_startup(&ConfigDiff::AddVolume(volume("v1")), &e));
    let dup = RuntimeError::VolumeAlreadyRegistered { volume: s("v1") };
    assert!(fatal_at_startup(&ConfigDiff::AddVolume(volume("v1")), &dup));
    let st = RuntimeError::VolumeNotFound { volume: s("v1") };
    assert!(fatal_at_startup(&ConfigDiff::AddStorage(storage("a", "v1", "a")), &st));
}

#[test]
fn state_never_holds_orphan_storages() {
    let mut rt = runtime();
    rt.add_volume(&volume("v1"), loaded("/l/v1.so")).ok().unwrap();
    rt.add_storage(&storage("a", "v1", "a/**"), Ok(())).ok().unwrap();
    rt.kill_volume(&volume("v1")).ok().unwrap();
    assert!(rt.add_storage(&storage("b", "v1", "b/**"), Ok(())).is_err());
    for h in &rt.storages {
        assert!(rt.volumes.iter().any(|v| v.name == h.volume_id));
    }
    assert!(rt.storages.is_empty());
}

use storage_manager::config::{BackendSearchMethod, PluginConfig, StorageConfig, VolumeConfig};
use storage_manager::diff::ConfigDiff;
use storage_manager::runtime::{LoadOutcome, RuntimeError, StorageRuntime};

fn s(x: &str) -> String {
    x.to_string()
}

fn volume(name: &str, setting: &str) -> VolumeConfig {
    VolumeConfig {
        name: s(name),
        backend: None,
        paths: None,
        required: false,
        rest: vec![(s("url"), s(setting))],
    }
}

fn storage(name: &str, volume_id: &str, key_expr: &str) -> StorageConfig {
    StorageConfig { name: s(name), volume_id: s(volume_id), key_expr: s(key_expr), rest: vec![] }
}

fn config(volumes: Vec<VolumeConfig>, storages: Vec<StorageConfig>) -> PluginConfig {
    PluginConfig { name: s("storages"), backend_search_dirs: None, volumes, storages }
}

fn describe(d: &ConfigDiff) -> String {
    match d {
        ConfigDiff::DeleteVolume(v) => format!("-v {}", v.name),
        ConfigDiff::AddVolume(v) => format!("+v {}", v.name),
        ConfigDiff::DeleteStorage(c) => format!("-s {}/{}", c.volume_id, c.name),
        ConfigDiff::AddStorage(c) => format!("+s {}/{}", c.volume_id, c.name),
    }
}

fn describe_all(ds: &[ConfigDiff]) -> Vec<String> {
    ds.iter().map(describe).collect()
}

/// Applies a batch as the runtime's driver does, with every load and start succeeding.
fn apply(rt: &mut StorageRuntime, diffs: Vec<ConfigDiff>) -> Result<(), RuntimeError> {
    for d in diffs {
        match d {
            ConfigDiff::DeleteVolume(v) => {
                rt.kill_volume(&v)?;
            }
            ConfigDiff::AddVolume(v) => {
                let path = format!("/lib/zbackend_{}.so", v.name);
                rt.add_volume(&v, LoadOutcome::Created { lib_path: path })?;
            }
            ConfigDiff::DeleteStorage(c) => {
                rt.kill_storage(&c);
            }
            ConfigDiff::AddStorage(c) => {
                rt.add_storage(&c, Ok(()))?;
            }
        }
    }
    Ok(())
}

fn names(rt: &StorageRuntime) -> (Vec<String>, Vec<(String, String)>) {
    let mut v: Vec<String> = rt.volumes.iter().map(|h| h.name.clone()).collect();
    v.sort();
    let mut st: Vec<(String, String)> =
        rt.storages.iter().map(|h| (h.volume_id.clone(), h.name.clone())).collect();
    st.sort();
    (v, st)
}

fn config_a() -> PluginConfig {
    config(
        vec![volume("v1", "x"), volume("v2", "y")],
        vec![storage("s1", "v1", "a/**"), storage("s2", "v2", "b/**"), storage("s3", "memory", "c")],
    )
}

fn config_b() -> PluginConfig {
    config(
        vec![volume("v1", "changed"), volume("v3", "z")],
        vec![storage("s1", "v1", "a/**"), storage("s4", "v3", "d/**"), storage("s3", "memory", "c2")],
    )
}

#[test]
fn same_config_gives_no_diffs() {
    let a = config_a();
    assert!(ConfigDiff::diffs(&a, &config_a()).is_empty());
    let empty = config(vec![], vec![]);
    assert!(ConfigDiff::diffs(&empty, &config(vec![], vec![])).is_empty());
}

#[test]
fn diffs_in_phase_order() {
    let d = ConfigDiff::diffs(&config_a(), &config_b());
    assert_eq!(
        describe_all(&d),
        vec![
            s("-s v1/s1"),
            s("-s v2/s2"),
            s("-s memory/s3"),
            s("-v v1"),
            s("-v v2"),
            s("+v v1"),
            s("+v v3"),
            s("+s v1/s1"),
            s("+s v3/s4"),
            s("+s memory/s3"),
        ]
    );
}

#[test]
fn unchanged_storage_on_stable_volume_is_kept() {
    let a = config(vec![volume("v1", "x")], vec![storage("s1", "v1", "a"), storage("s2", "v1", "b")]);
    let b = config(vec![volume("v1", "x")], vec![storage("s1", "v1", "a")]);
    assert_eq!(describe_all(&ConfigDiff::diffs(&a, &b)), vec![s("-s v1/s2")]);
    assert_eq!(describe_all(&ConfigDiff::diffs(&b, &a)), vec![s("+s v1/s2")]);
}

#[test]
fn startup_adds_everything() {
    let d = ConfigDiff::startup_diffs(&config_a());
    assert_eq!(
        describe_all(&d),
        vec![s("+v v1"), s("+v v2"), s("+s v1/s1"), s("+s v2/s2"), s("+s memory/s3")]
    );
}

#[test]
fn reconcile_there_and_back_restores_names() {
    let mut rt = StorageRuntime::new(s("storages"), s("pid"), None);
    apply(&mut rt, ConfigDiff::startup_diffs(&config_a())).ok().unwrap();
    let before = names(&rt);
    apply(&mut rt, ConfigDiff::diffs(&config_a(), &config_b())).ok().unwrap();
    let middle = names(&rt);
    assert_eq!(middle.0, vec![s("memory"), s("v1"), s("v3")]);
    assert_eq!(
        middle.1,
        vec![(s("memory"), s("s3")), (s("v1"), s("s1")), (s("v3"), s("s4"))]
    );
    apply(&mut rt, ConfigDiff::diffs(&config_b(), &config_a())).ok().unwrap();
    assert_eq!(names(&rt), before);
}

#[test]
fn duplicate_add_volume_in_one_batch_fails() {
    let mut rt = StorageRuntime::new(s("storages"), s("pid"), None);
    let batch = vec![ConfigDiff::AddVolume(volume("v1", "x")), ConfigDiff::AddVolume(volume("v1", "y"))];
    match apply(&mut rt, batch) {
        Err(RuntimeError::VolumeAlreadyRegistered { volume }) => assert_eq!(volume, "v1"),
        _ => panic!("expected already registered"),
    }
    assert_eq!(rt.volumes.len(), 2);
    assert_eq!(rt.volumes[1].name, "v1");
}

#[test]
fn volume_equality_covers_every_setting() {
    let a = volume("v1", "x");
    assert!(a.same_as(&volume("v1", "x")));
    assert!(!a.same_as(&volume("v1", "y")));
    let mut b = volume("v1", "x");
    b.required = true;
    assert!(!a.same_as(&b));
    let mut c = volume("v1", "x");
    c.paths = Some(vec![s("/p")]);
    assert!(!a.same_as(&c));
    assert!(a.copy().same_as(&a));
}

#[test]
fn search_method_prefers_paths() {
    let mut v = volume("v1", "x");
    v.backend = Some(s("b"));
    assert!(matches!(v.backend_search_method(), BackendSearchMethod::ByName(n) if n == "b"));
    v.paths = Some(vec![s("/p.so")]);
    assert!(matches!(v.backend_search_method(), BackendSearchMethod::ByPaths(p) if p == vec![s("/p.so")]));
}

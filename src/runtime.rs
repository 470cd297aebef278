use vstd::prelude::*;
use vstd::string::StringExecFns;

use crate::config::{search_method_of, SearchView, StorageConfig, VolumeConfig};
use crate::diff::ConfigDiff;

verus! {

/// Name of the built-in in-memory volume, present from startup and never deleted.
pub open spec fn memory_name() -> Seq<char> {
    "memory"@
}

/// Library path recorded for the built-in volume.
pub open spec fn static_memory_path() -> Seq<char> {
    "<static-memory>"@
}

/// Prefix of the file name of a backend library searched for by name.
pub open spec fn backend_lib_prefix() -> Seq<char> {
    "zbackend_"@
}

/// Symbol that a backend library exports to create a backend.
pub open spec fn create_backend_symbol() -> Seq<char> {
    "create_backend"@
}

pub open spec fn status_key_of(pid: Seq<char>, name: Seq<char>) -> Seq<char> {
    "/@/router/"@ + pid + "/status/plugins/"@ + name
}

/// A registered volume.
pub struct VolumeHandle {
    pub name: String,
    /// Path of the library the backend came from, or the built-in sentinel.
    pub lib_path: String,
}

/// The control handle of a running storage worker, identified by a worker number.
pub struct StorageHandle {
    pub volume_id: String,
    pub name: String,
    pub worker: u64,
}

impl StorageHandle {
    pub fn copy(&self) -> (r: StorageHandle)
        ensures
            r == *self,
    {
        StorageHandle { volume_id: self.volume_id.clone(), name: self.name.clone(), worker: self.worker }
    }
}

/// What the loader must do to bring up a volume.
pub enum LoadPlan {
    /// Create the built-in in-memory backend; no library is involved.
    Builtin,
    /// Try each path in order; the first library that loads is used.
    FromPaths(Vec<String>),
    /// Search the backend directories for a library with this file name stem.
    Search(String),
}

/// What came of loading a volume's backend.
pub enum LoadOutcome {
    /// A backend was created, from the library at `lib_path` where one was loaded.
    Created { lib_path: String },
    /// No library could be loaded.
    NoLibrary,
    /// The library loaded but does not export the creation entry point.
    MissingSymbol { lib_path: String },
    /// The entry point ran and reported an error.
    CreateFailed { lib_path: String, message: String },
}

/// What the orchestrator needs to start a storage worker.
pub struct StoragePlan {
    /// Administrative key of the storage.
    pub admin_key: String,
    /// Number under which the worker will be registered.
    pub worker: u64,
}

pub enum RuntimeError {
    VolumeAlreadyRegistered { volume: String },
    /// The built-in volume cannot be deleted.
    BuiltinVolume,
    LibraryNotFoundInPaths { volume: String, paths: Vec<String> },
    LibraryNotFoundByName { volume: String, filename: String },
    SymbolMissing { volume: String, lib_path: String, symbol: String },
    BackendCreation { volume: String, lib_path: String, message: String },
    VolumeNotFound { volume: String },
    StorageAlreadyRegistered { volume: String, storage: String },
    /// Starting a storage worker failed; the message is passed on unchanged.
    WorkerStart { message: String },
    /// Every worker number has been handed out.
    WorkerNumbersExhausted,
}

impl RuntimeError {
    /// Whether this is a failure to load a volume's backend.
    pub fn is_load_error(&self) -> (r: bool)
        ensures
            r == is_load_error_spec(*self),
    {
        match self {
            RuntimeError::LibraryNotFoundInPaths { .. } => true,
            RuntimeError::LibraryNotFoundByName { .. } => true,
            RuntimeError::SymbolMissing { .. } => true,
            RuntimeError::BackendCreation { .. } => true,
            _ => false,
        }
    }
}

pub open spec fn is_load_error_spec(e: RuntimeError) -> bool {
    match e {
        RuntimeError::LibraryNotFoundInPaths { .. } => true,
        RuntimeError::LibraryNotFoundByName { .. } => true,
        RuntimeError::SymbolMissing { .. } => true,
        RuntimeError::BackendCreation { .. } => true,
        _ => false,
    }
}

/// At startup only a volume that is not required may fail to load without stopping
/// the whole runtime.
pub fn fatal_at_startup(diff: &ConfigDiff, e: &RuntimeError) -> (r: bool)
    ensures
        r == !(diff matches ConfigDiff::AddVolume(v) && !v.required && is_load_error_spec(*e)),
{
    match diff {
        ConfigDiff::AddVolume(v) => v.required || !e.is_load_error(),
        _ => true,
    }
}

/// The plan for a volume that is not yet registered.
pub open spec fn plan_fits(name: Seq<char>, search: SearchView, p: LoadPlan) -> bool {
    if name == memory_name() {
        p is Builtin
    } else {
        match search {
            SearchView::ByPaths(paths) => match p {
                LoadPlan::FromPaths(q) => q@.map_values(|s: String| s@) == paths,
                _ => false,
            },
            SearchView::ByName(b) => match p {
                LoadPlan::Search(f) => f@ == backend_lib_prefix() + b,
                _ => false,
            },
        }
    }
}

/// The error that a failed load of a volume named `name` reports.
pub open spec fn load_error_fits(
    name: Seq<char>,
    search: SearchView,
    o: LoadOutcome,
    e: RuntimeError,
) -> bool {
    match o {
        LoadOutcome::Created { .. } => false,
        LoadOutcome::NoLibrary => if name == memory_name() {
            match e {
                RuntimeError::BackendCreation { volume, lib_path, .. } => volume@ == name
                    && lib_path@ == static_memory_path(),
                _ => false,
            }
        } else {
            match search {
                SearchView::ByPaths(paths) => match e {
                    RuntimeError::LibraryNotFoundInPaths { volume, paths: q } => volume@ == name
                        && q@.map_values(|s: String| s@) == paths,
                    _ => false,
                },
                SearchView::ByName(b) => match e {
                    RuntimeError::LibraryNotFoundByName { volume, filename } => volume@ == name
                        && filename@ == backend_lib_prefix() + b,
                    _ => false,
                },
            }
        },
        LoadOutcome::MissingSymbol { lib_path } => match e {
            RuntimeError::SymbolMissing { volume, lib_path: p, symbol } => volume@ == name && p@
                == lib_path@ && symbol@ == create_backend_symbol(),
            _ => false,
        },
        LoadOutcome::CreateFailed { lib_path, message } => match e {
            RuntimeError::BackendCreation { volume, lib_path: p, message: m } => volume@ == name
                && p@ == (if name == memory_name() {
                static_memory_path()
            } else {
                lib_path@
            }) && m@ == message@,
            _ => false,
        },
    }
}

pub open spec fn storage_at(ss: Seq<StorageHandle>, v: Seq<char>, s: Seq<char>) -> bool {
    exists|i: int| 0 <= i < ss.len() && #[trigger] ss[i].volume_id@ == v && ss[i].name@ == s
}

/// Some storage of `ss` hosted on volume `v` runs as worker `w`.
pub open spec fn hosts_worker(ss: Seq<StorageHandle>, v: Seq<char>, w: u64) -> bool {
    exists|j: int| 0 <= j < ss.len() && #[trigger] ss[j].worker == w && ss[j].volume_id@ == v
}

/// What `kill_volume` did: the volume `n` and its storages are gone, every other
/// volume and storage stays, and `ws` holds the workers of the removed storages.
pub open spec fn volume_removed(
    before: StorageRuntime,
    after: StorageRuntime,
    n: Seq<char>,
    ws: Seq<u64>,
) -> bool {
    &&& forall|v: Seq<char>| #[trigger]
        after.has_volume(v) <==> before.has_volume(v) && v != n
    &&& forall|v: Seq<char>, s: Seq<char>| #[trigger]
        after.has_storage(v, s) <==> before.has_storage(v, s) && v != n
    &&& forall|i: int|
        0 <= i < after.storages@.len() ==> before.storages@.contains(
            #[trigger] after.storages@[i],
        )
    &&& forall|i: int|
        0 <= i < after.volumes@.len() ==> before.volumes@.contains(
            #[trigger] after.volumes@[i],
        )
    &&& forall|t: int|
        0 <= t < ws.len() ==> hosts_worker(before.storages@, n, #[trigger] ws[t])
    &&& forall|j: int|
        0 <= j < before.storages@.len() && before.storages@[j].volume_id@ == n
            ==> ws.contains(#[trigger] before.storages@[j].worker)
    &&& after.next_worker == before.next_worker
    &&& after.name == before.name
    &&& after.pid == before.pid
}

/// What `kill_storage` did: the storage of worker `w`, named `s` on volume `v`, is gone.
pub open spec fn storage_removed(
    before: StorageRuntime,
    after: StorageRuntime,
    v: Seq<char>,
    s: Seq<char>,
    w: u64,
) -> bool {
    exists|i: int|
        0 <= i < before.storages@.len() && #[trigger] before.storages@[i].worker == w
            && before.storages@[i].volume_id@ == v && before.storages@[i].name@ == s
            && after.storages@ == before.storages@.remove(i)
}

/// The volumes, the storages they host, and the next worker number to hand out.
pub struct StorageRuntime {
    pub name: String,
    pub pid: String,
    pub backend_search_dirs: Option<Vec<String>>,
    pub volumes: Vec<VolumeHandle>,
    pub storages: Vec<StorageHandle>,
    pub next_worker: u64,
}

impl StorageRuntime {
    pub open spec fn has_volume(&self, n: Seq<char>) -> bool {
        exists|i: int| 0 <= i < self.volumes@.len() && #[trigger] self.volumes@[i].name@ == n
    }

    pub open spec fn has_storage(&self, v: Seq<char>, s: Seq<char>) -> bool {
        storage_at(self.storages@, v, s)
    }

    /// No storage is registered under a volume that is absent.
    pub open spec fn storages_have_volumes(&self) -> bool {
        forall|i: int|
            0 <= i < self.storages@.len() ==> self.has_volume(
                #[trigger] self.storages@[i].volume_id@,
            )
    }

    pub open spec fn wf(&self) -> bool {
        &&& forall|i: int, j: int|
            0 <= i < self.volumes@.len() && 0 <= j < self.volumes@.len() && i != j
                ==> self.volumes@[i].name@ != self.volumes@[j].name@
        &&& forall|i: int, j: int|
            0 <= i < self.storages@.len() && 0 <= j < self.storages@.len() && i != j ==> {
                &&& !(self.storages@[i].volume_id@ == self.storages@[j].volume_id@
                    && self.storages@[i].name@ == self.storages@[j].name@)
                &&& self.storages@[i].worker != self.storages@[j].worker
            }
        &&& forall|i: int|
            0 <= i < self.storages@.len() ==> #[trigger] self.storages@[i].worker
                < self.next_worker
        &&& self.storages_have_volumes()
        &&& self.has_volume(memory_name())
    }

    /// A runtime that holds the built-in volume alone.
    pub fn new(name: String, pid: String, backend_search_dirs: Option<Vec<String>>) -> (r: Self)
        ensures
            r.wf(),
            r.name == name,
            r.pid == pid,
            r.backend_search_dirs == backend_search_dirs,
            r.volumes@.len() == 1,
            r.volumes@[0].name@ == memory_name(),
            r.volumes@[0].lib_path@ == static_memory_path(),
            r.storages@.len() == 0,
            r.next_worker == 0,
    {
        let mut volumes: Vec<VolumeHandle> = Vec::new();
        volumes.push(
            VolumeHandle {
                name: String::from_str("memory"),
                lib_path: String::from_str("<static-memory>"),
            },
        );
        let r = StorageRuntime {
            name,
            pid,
            backend_search_dirs,
            volumes,
            storages: Vec::new(),
            next_worker: 0,
        };
        assert(r.volumes@[0].name@ == memory_name());
        r
    }

    /// Key under which the runtime's status is published.
    pub fn status_key(&self) -> (r: String)
        ensures
            r@ == status_key_of(self.pid@, self.name@),
    {
        let mut k = String::from_str("/@/router/");
        k.append(self.pid.as_str());
        k.append("/status/plugins/");
        k.append(self.name.as_str());
        k
    }

    fn find_volume(&self, n: &String) -> (r: Option<usize>)
        ensures
            match r {
                Some(i) => i < self.volumes@.len() && self.volumes@[i as int].name@ == n@,
                None => !self.has_volume(n@),
            },
    {
        let mut i: usize = 0;
        while i < self.volumes.len()
            invariant
                i <= self.volumes@.len(),
                forall|k: int| 0 <= k < i ==> self.volumes@[k].name@ != n@,
            decreases self.volumes@.len() - i,
        {
            if self.volumes[i].name == *n {
                return Some(i);
            }
            i = i + 1;
        }
        None
    }

    fn find_storage(&self, v: &String, s: &String) -> (r: Option<usize>)
        ensures
            match r {
                Some(i) => i < self.storages@.len() && self.storages@[i as int].volume_id@ == v@
                    && self.storages@[i as int].name@ == s@,
                None => !self.has_storage(v@, s@),
            },
    {
        let mut i: usize = 0;
        while i < self.storages.len()
            invariant
                i <= self.storages@.len(),
                forall|k: int|
                    0 <= k < i ==> !(self.storages@[k].volume_id@ == v@ && self.storages@[k].name@
                        == s@),
            decreases self.storages@.len() - i,
        {
            if self.storages[i].volume_id == *v && self.storages[i].name == *s {
                return Some(i);
            }
            i = i + 1;
        }
        None
    }

    /// Registers the volume `config` once its backend was loaded as `outcome` says.
    pub fn add_volume(&mut self, config: &VolumeConfig, outcome: LoadOutcome) -> (r: Result<
        (),
        RuntimeError,
    >)
        requires
            old(self).wf(),
        ensures
            final(self).wf(),
            old(self).has_volume(config.name@) ==> match r {
                Err(RuntimeError::VolumeAlreadyRegistered { volume }) => volume@ == config.name@,
                _ => false,
            },
            r is Ok ==> {
                &&& outcome is Created
                &&& !old(self).has_volume(config.name@)
                &&& final(self).volumes@.len() == old(self).volumes@.len() + 1
                &&& final(self).volumes@.drop_last() == old(self).volumes@
                &&& final(self).volumes@.last().name@ == config.name@
                &&& final(self).volumes@.last().lib_path@ == (if config.name@ == memory_name() {
                    static_memory_path()
                } else {
                    outcome->Created_lib_path@
                })
                &&& final(self).storages == old(self).storages
                &&& final(self).next_worker == old(self).next_worker
                &&& final(self).name == old(self).name
                &&& final(self).pid == old(self).pid
            },
            !old(self).has_volume(config.name@) && outcome is Created ==> r is Ok,
            r is Err ==> *final(self) == *old(self),
            !old(self).has_volume(config.name@) ==> (r matches Err(e) ==> load_error_fits(
                config.name@,
                search_method_of(config@),
                outcome,
                e,
            )),
    {
        if self.find_volume(&config.name).is_some() {
            return Err(RuntimeError::VolumeAlreadyRegistered { volume: config.name.clone() });
        }
        let memory = String::from_str("memory");
        let builtin = config.name == memory;
        match outcome {
            LoadOutcome::Created { lib_path } => {
                let path = if builtin {
                    String::from_str("<static-memory>")
                } else {
                    lib_path
                };
                let ghost prev = *self;
                self.volumes.push(VolumeHandle { name: config.name.clone(), lib_path: path });
                assert(self.volumes@.drop_last() =~= prev.volumes@);
                assert forall|x: Seq<char>| prev.has_volume(x) implies self.has_volume(x) by {
                    let j = choose|j: int|
                        0 <= j < prev.volumes@.len() && #[trigger] prev.volumes@[j].name@ == x;
                    assert(self.volumes@[j] == prev.volumes@[j]);
                }
                assert(self.storages_have_volumes());
                Ok(())
            },
            LoadOutcome::NoLibrary => {
                if builtin {
                    Err(
                        RuntimeError::BackendCreation {
                            volume: config.name.clone(),
                            lib_path: String::from_str("<static-memory>"),
                            message: String::new(),
                        },
                    )
                } else {
                    match config.backend_search_method() {
                        crate::config::BackendSearchMethod::ByPaths(paths) => Err(
                            RuntimeError::LibraryNotFoundInPaths {
                                volume: config.name.clone(),
                                paths,
                            },
                        ),
                        crate::config::BackendSearchMethod::ByName(b) => {
                            let mut f = String::from_str("zbackend_");
                            f.append(b.as_str());
                            Err(
                                RuntimeError::LibraryNotFoundByName {
                                    volume: config.name.clone(),
                                    filename: f,
                                },
                            )
                        },
                    }
                }
            },
            LoadOutcome::MissingSymbol { lib_path } => Err(
                RuntimeError::SymbolMissing {
                    volume: config.name.clone(),
                    lib_path,
                    symbol: String::from_str("create_backend"),
                },
            ),
            LoadOutcome::CreateFailed { lib_path, message } => {
                let path = if builtin {
                    String::from_str("<static-memory>")
                } else {
                    lib_path
                };
                Err(RuntimeError::BackendCreation { volume: config.name.clone(), lib_path: path, message })
            },
        }
    }

    /// Removes the volume `volume` and, first, every storage it hosts; returns the
    /// workers of those storages, which must each be stopped. The built-in volume stays.
    pub fn kill_volume(&mut self, volume: &VolumeConfig) -> (r: Result<Vec<u64>, RuntimeError>)
        requires
            old(self).wf(),
        ensures
            final(self).wf(),
            volume.name@ == memory_name() <==> r matches Err(RuntimeError::BuiltinVolume),
            volume.name@ != memory_name() ==> r is Ok,
            r is Err ==> *final(self) == *old(self),
            r matches Ok(ws) ==> volume_removed(*old(self), *final(self), volume.name@, ws@),
    {
        let memory = String::from_str("memory");
        if volume.name == memory {
            return Err(RuntimeError::BuiltinVolume);
        }
        let ghost n = volume.name@;
        let ghost prev = *self;
        let mut workers: Vec<u64> = Vec::new();
        let mut kept: Vec<StorageHandle> = Vec::new();
        let ghost mut idx: Seq<int> = Seq::empty();
        let ghost mut wsrc: Seq<int> = Seq::empty();
        let mut i: usize = 0;
        while i < self.storages.len()
            invariant
                *self == prev,
                prev.wf(),
                n == volume.name@,
                n != memory_name(),
                i <= prev.storages@.len(),
                idx.len() == kept@.len(),
                forall|k: int|
                    0 <= k < kept@.len() ==> 0 <= #[trigger] idx[k] < i && kept@[k]
                        == prev.storages@[idx[k]] && prev.storages@[idx[k]].volume_id@ != n,
                forall|k1: int, k2: int|
                    0 <= k1 < kept@.len() && 0 <= k2 < kept@.len() && k1 != k2 ==> idx[k1]
                        != idx[k2],
                forall|j: int|
                    0 <= j < i && prev.storages@[j].volume_id@ != n ==> exists|k: int|
                        0 <= k < kept@.len() && #[trigger] idx[k] == j,
                wsrc.len() == workers@.len(),
                forall|t: int|
                    0 <= t < workers@.len() ==> 0 <= #[trigger] wsrc[t] < i
                        && prev.storages@[wsrc[t]].worker == workers@[t]
                        && prev.storages@[wsrc[t]].volume_id@ == n,
                forall|j: int|
                    0 <= j < i && prev.storages@[j].volume_id@ == n ==> workers@.contains(
                        #[trigger] prev.storages@[j].worker,
                    ),
            decreases prev.storages@.len() - i,
        {
            let hit = self.storages[i].volume_id == volume.name;
            assert(hit == (prev.storages@[i as int].volume_id@ == n));
            if hit {
                let w = self.storages[i].worker;
                let ghost before = workers@;
                workers.push(w);
                proof {
                    wsrc = wsrc.push(i as int);
                }
                assert forall|j: int|
                    0 <= j < i + 1 && prev.storages@[j].volume_id@ == n implies workers@.contains(
                    #[trigger] prev.storages@[j].worker,
                ) by {
                    if j < i {
                        let t = choose|t: int| 0 <= t < before.len() && before[t] == prev.storages@[j].worker;
                        assert(workers@[t] == before[t]);
                    } else {
                        assert(workers@[before.len() as int] == w);
                    }
                }
            } else {
                let ghost before = idx;
                kept.push(self.storages[i].copy());
                proof {
                    idx = idx.push(i as int);
                    assert forall|j: int|
                        0 <= j < i + 1 && prev.storages@[j].volume_id@ != n implies exists|k: int|
                        0 <= k < kept@.len() && #[trigger] idx[k] == j by {
                        if j < i {
                            let k = choose|k: int| 0 <= k < before.len() && #[trigger] before[k] == j;
                            assert(idx[k] == j);
                        } else {
                            assert(idx[before.len() as int] == j);
                        }
                    }
                }
            }
            i = i + 1;
        }
        assert forall|t: int| 0 <= t < workers@.len() implies hosts_worker(
            prev.storages@,
            n,
            #[trigger] workers@[t],
        ) by {
            assert(prev.storages@[wsrc[t]].worker == workers@[t]);
        }
        self.storages = kept;
        let ghost mid = *self;
        assert forall|v: Seq<char>, s: Seq<char>| #[trigger]
            mid.has_storage(v, s) <==> prev.has_storage(v, s) && v != n by {
            if mid.has_storage(v, s) {
                let k = choose|k: int|
                    0 <= k < mid.storages@.len() && #[trigger] mid.storages@[k].volume_id@ == v
                        && mid.storages@[k].name@ == s;
                assert(prev.storages@[idx[k]].volume_id@ == v);
            }
            if prev.has_storage(v, s) && v != n {
                let j = choose|j: int|
                    0 <= j < prev.storages@.len() && #[trigger] prev.storages@[j].volume_id@ == v
                        && prev.storages@[j].name@ == s;
                let k = choose|k: int| 0 <= k < kept@.len() && #[trigger] idx[k] == j;
                assert(mid.storages@[k].volume_id@ == v);
            }
        }
        assert forall|k: int|
            0 <= k < mid.storages@.len() implies prev.storages@.contains(
            #[trigger] mid.storages@[k],
        ) by {
            assert(prev.storages@[idx[k]] == mid.storages@[k]);
        }
        assert forall|k1: int, k2: int|
            0 <= k1 < mid.storages@.len() && 0 <= k2 < mid.storages@.len() && k1 != k2 implies {
            &&& !(mid.storages@[k1].volume_id@ == mid.storages@[k2].volume_id@
                && mid.storages@[k1].name@ == mid.storages@[k2].name@)
            &&& mid.storages@[k1].worker != mid.storages@[k2].worker
        } by {
            assert(mid.storages@[k1] == prev.storages@[idx[k1]]);
            assert(mid.storages@[k2] == prev.storages@[idx[k2]]);
        }
        assert forall|k: int| 0 <= k < mid.storages@.len() implies #[trigger] mid.storages@[k].worker
            < mid.next_worker by {
            assert(mid.storages@[k] == prev.storages@[idx[k]]);
        }
        match self.find_volume(&volume.name) {
            Some(at) => {
                self.volumes.remove(at);
                assert forall|v: Seq<char>| #[trigger]
                    self.has_volume(v) <==> prev.has_volume(v) && v != n by {
                    if self.has_volume(v) {
                        let j = choose|j: int|
                            0 <= j < self.volumes@.len() && #[trigger] self.volumes@[j].name@ == v;
                        if j < at {
                            assert(prev.volumes@[j].name@ == v);
                        } else {
                            assert(prev.volumes@[j + 1].name@ == v);
                        }
                    }
                    if prev.has_volume(v) && v != n {
                        let j = choose|j: int|
                            0 <= j < prev.volumes@.len() && #[trigger] prev.volumes@[j].name@ == v;
                        if j < at {
                            assert(self.volumes@[j].name@ == v);
                        } else {
                            assert(self.volumes@[j - 1].name@ == v);
                        }
                    }
                }
                assert forall|a: int, b: int|
                    0 <= a < self.volumes@.len() && 0 <= b < self.volumes@.len() && a != b
                    implies self.volumes@[a].name@ != self.volumes@[b].name@ by {
                    let pa = if a < at { a } else { a + 1 };
                    let pb = if b < at { b } else { b + 1 };
                    assert(self.volumes@[a] == prev.volumes@[pa]);
                    assert(self.volumes@[b] == prev.volumes@[pb]);
                }
                assert forall|a: int|
                    0 <= a < self.volumes@.len() implies prev.volumes@.contains(
                    #[trigger] self.volumes@[a],
                ) by {
                    let pa = if a < at { a } else { a + 1 };
                    assert(self.volumes@[a] == prev.volumes@[pa]);
                }
            },
            None => {
                assert forall|a: int|
                    0 <= a < self.volumes@.len() implies prev.volumes@.contains(
                    #[trigger] self.volumes@[a],
                ) by {
                    assert(self.volumes@[a] == prev.volumes@[a]);
                }
            },
        }
        assert forall|k: int| 0 <= k < self.storages@.len() implies self.has_volume(
            #[trigger] self.storages@[k].volume_id@,
        ) by {
            assert(self.storages@[k] == prev.storages@[idx[k]]);
            assert(prev.has_volume(prev.storages@[idx[k]].volume_id@));
        }
        assert(self.has_volume(memory_name()));
        Ok(workers)
    }

    proof fn lemma_same_volumes(a: Self, b: Self)
        requires
            a.volumes@ == b.volumes@,
        ensures
            forall|v: Seq<char>| #[trigger] a.has_volume(v) == b.has_volume(v),
    {
        assert forall|v: Seq<char>| #[trigger] a.has_volume(v) == b.has_volume(v) by {
            if a.has_volume(v) {
                let j = choose|j: int| 0 <= j < a.volumes@.len() && #[trigger] a.volumes@[j].name@ == v;
                assert(b.volumes@[j].name@ == v);
            }
            if b.has_volume(v) {
                let j = choose|j: int| 0 <= j < b.volumes@.len() && #[trigger] b.volumes@[j].name@ == v;
                assert(a.volumes@[j].name@ == v);
            }
        }
    }

    /// The first reason, if any, why the storage `config` cannot be added.
    pub open spec fn storage_refusal(&self, config: StorageConfig) -> Option<RuntimeError> {
        if !self.has_volume(config.volume_id@) {
            Some(RuntimeError::VolumeNotFound { volume: config.volume_id })
        } else if self.has_storage(config.volume_id@, config.name@) {
            Some(RuntimeError::StorageAlreadyRegistered { volume: config.volume_id, storage: config.name })
        } else if self.next_worker == u64::MAX {
            Some(RuntimeError::WorkerNumbersExhausted)
        } else {
            None
        }
    }

    /// Same error, up to the views of the names it carries.
    pub open spec fn same_refusal(a: RuntimeError, b: RuntimeError) -> bool {
        match (a, b) {
            (RuntimeError::VolumeNotFound { volume: x }, RuntimeError::VolumeNotFound { volume: y }) => x@ == y@,
            (
                RuntimeError::StorageAlreadyRegistered { volume: x, storage: s },
                RuntimeError::StorageAlreadyRegistered { volume: y, storage: t },
            ) => x@ == y@ && s@ == t@,
            (RuntimeError::WorkerNumbersExhausted, RuntimeError::WorkerNumbersExhausted) => true,
            _ => false,
        }
    }

    fn refuse_storage(&self, config: &StorageConfig) -> (r: Option<RuntimeError>)
        ensures
            r is Some == self.storage_refusal(*config) is Some,
            r matches Some(e) ==> Self::same_refusal(e, self.storage_refusal(*config)->0),
    {
        if self.find_volume(&config.volume_id).is_none() {
            return Some(RuntimeError::VolumeNotFound { volume: config.volume_id.clone() });
        }
        if self.find_storage(&config.volume_id, &config.name).is_some() {
            return Some(
                RuntimeError::StorageAlreadyRegistered {
                    volume: config.volume_id.clone(),
                    storage: config.name.clone(),
                },
            );
        }
        if self.next_worker == u64::MAX {
            return Some(RuntimeError::WorkerNumbersExhausted);
        }
        None
    }

    /// What is needed to start a worker for the storage `config`, unless it cannot be added.
    pub fn storage_plan(&self, config: &StorageConfig) -> (r: Result<StoragePlan, RuntimeError>)
        ensures
            r is Err == self.storage_refusal(*config) is Some,
            r matches Err(e) ==> Self::same_refusal(e, self.storage_refusal(*config)->0),
            r matches Ok(p) ==> p.worker == self.next_worker && p.admin_key@ == status_key_of(
                self.pid@,
                self.name@,
            ) + "/storages/"@ + config.name@,
    {
        match self.refuse_storage(config) {
            Some(e) => Err(e),
            None => {
                let mut k = self.status_key();
                k.append("/storages/");
                k.append(config.name.as_str());
                Ok(StoragePlan { admin_key: k, worker: self.next_worker })
            },
        }
    }

    /// Registers the storage `config` once its worker was started, as `started` says,
    /// under the next worker number, which it returns. A failed start registers nothing.
    pub fn add_storage(&mut self, config: &StorageConfig, started: Result<(), String>) -> (r:
        Result<u64, RuntimeError>)
        requires
            old(self).wf(),
        ensures
            final(self).wf(),
            r is Err ==> *final(self) == *old(self),
            old(self).storage_refusal(*config) is Some ==> match r {
                Err(e) => Self::same_refusal(e, old(self).storage_refusal(*config)->0),
                Ok(_) => false,
            },
            old(self).storage_refusal(*config) is None ==> match started {
                Err(m) => match r {
                    Err(RuntimeError::WorkerStart { message }) => message == m,
                    _ => false,
                },
                Ok(_) => match r {
                    Ok(w) => {
                        &&& w == old(self).next_worker
                        &&& final(self).next_worker == old(self).next_worker + 1
                        &&& final(self).storages@.drop_last() == old(self).storages@
                        &&& final(self).storages@.last().volume_id@ == config.volume_id@
                        &&& final(self).storages@.last().name@ == config.name@
                        &&& final(self).storages@.last().worker == w
                        &&& final(self).volumes == old(self).volumes
                        &&& final(self).name == old(self).name
                        &&& final(self).pid == old(self).pid
                    },
                    Err(_) => false,
                },
            },
    {
        if let Some(e) = self.refuse_storage(config) {
            return Err(e);
        }
        match started {
            Err(message) => Err(RuntimeError::WorkerStart { message }),
            Ok(()) => {
                let w = self.next_worker;
                let ghost prev = *self;
                self.storages.push(
                    StorageHandle {
                        volume_id: config.volume_id.clone(),
                        name: config.name.clone(),
                        worker: w,
                    },
                );
                self.next_worker = w + 1;
                proof {
                    Self::lemma_same_volumes(*self, prev);
                }
                assert(self.storages@.drop_last() =~= prev.storages@);
                assert forall|i: int, j: int|
                    0 <= i < self.storages@.len() && 0 <= j < self.storages@.len() && i != j
                    implies {
                    &&& !(self.storages@[i].volume_id@ == self.storages@[j].volume_id@
                        && self.storages@[i].name@ == self.storages@[j].name@)
                    &&& self.storages@[i].worker != self.storages@[j].worker
                } by {
                    let last = prev.storages@.len() as int;
                    if i == last {
                        assert(self.storages@[j] == prev.storages@[j]);
                    } else if j == last {
                        assert(self.storages@[i] == prev.storages@[i]);
                    } else {
                        assert(self.storages@[i] == prev.storages@[i]);
                        assert(self.storages@[j] == prev.storages@[j]);
                    }
                }
                assert forall|i: int| 0 <= i < self.storages@.len() implies #[trigger] self.storages@[i].worker
                    < self.next_worker by {
                    if i < prev.storages@.len() {
                        assert(self.storages@[i] == prev.storages@[i]);
                    }
                }
                assert forall|i: int| 0 <= i < self.storages@.len() implies self.has_volume(
                    #[trigger] self.storages@[i].volume_id@,
                ) by {
                    if i < prev.storages@.len() {
                        assert(self.storages@[i] == prev.storages@[i]);
                        assert(prev.has_volume(prev.storages@[i].volume_id@));
                    }
                }
                Ok(w)
            },
        }
    }

    /// Removes the storage `config` and returns its worker, which must be stopped;
    /// nothing when no such storage is registered.
    pub fn kill_storage(&mut self, config: &StorageConfig) -> (r: Option<u64>)
        requires
            old(self).wf(),
        ensures
            final(self).wf(),
            !final(self).has_storage(config.volume_id@, config.name@),
            final(self).volumes == old(self).volumes,
            final(self).next_worker == old(self).next_worker,
            final(self).name == old(self).name,
            final(self).pid == old(self).pid,
            r is Some == old(self).has_storage(config.volume_id@, config.name@),
            r is None ==> *final(self) == *old(self),
            r matches Some(w) ==> storage_removed(
                *old(self),
                *final(self),
                config.volume_id@,
                config.name@,
                w,
            ),
    {
        match self.find_storage(&config.volume_id, &config.name) {
            None => None,
            Some(at) => {
                let ghost prev = *self;
                let h = self.storages.remove(at);
                proof {
                    Self::lemma_same_volumes(*self, prev);
                }
                assert forall|i: int, j: int|
                    0 <= i < self.storages@.len() && 0 <= j < self.storages@.len() && i != j
                    implies {
                    &&& !(self.storages@[i].volume_id@ == self.storages@[j].volume_id@
                        && self.storages@[i].name@ == self.storages@[j].name@)
                    &&& self.storages@[i].worker != self.storages@[j].worker
                } by {
                    let pi = if i < at { i } else { i + 1 };
                    let pj = if j < at { j } else { j + 1 };
                    assert(self.storages@[i] == prev.storages@[pi]);
                    assert(self.storages@[j] == prev.storages@[pj]);
                }
                assert forall|i: int| 0 <= i < self.storages@.len() implies #[trigger] self.storages@[i].worker
                    < self.next_worker by {
                    let pi = if i < at { i } else { i + 1 };
                    assert(self.storages@[i] == prev.storages@[pi]);
                }
                assert forall|i: int| 0 <= i < self.storages@.len() implies self.has_volume(
                    #[trigger] self.storages@[i].volume_id@,
                ) by {
                    let pi = if i < at { i } else { i + 1 };
                    assert(self.storages@[i] == prev.storages@[pi]);
                    assert(prev.has_volume(prev.storages@[pi].volume_id@));
                }
                proof {
                    if self.has_storage(config.volume_id@, config.name@) {
                        let i = choose|i: int|
                            0 <= i < self.storages@.len() && #[trigger] self.storages@[i].volume_id@
                                == config.volume_id@ && self.storages@[i].name@ == config.name@;
                        let pi = if i < at { i } else { i + 1 };
                        assert(self.storages@[i] == prev.storages@[pi]);
                        assert(prev.storages@[at as int].volume_id@ == config.volume_id@);
                    }
                }
                assert(prev.storages@[at as int].worker == h.worker);
                Some(h.worker)
            },
        }
    }

    /// What must be loaded to add the volume `config`; fails if a volume of that name exists.
    pub fn volume_plan(&self, config: &VolumeConfig) -> (r: Result<LoadPlan, RuntimeError>)
        ensures
            self.has_volume(config.name@) <==> r matches Err(
                RuntimeError::VolumeAlreadyRegistered { .. },
            ),
            match r {
                Ok(p) => plan_fits(config.name@, search_method_of(config@), p),
                Err(RuntimeError::VolumeAlreadyRegistered { volume }) => volume@ == config.name@,
                Err(_) => false,
            },
    {
        if self.find_volume(&config.name).is_some() {
            return Err(RuntimeError::VolumeAlreadyRegistered { volume: config.name.clone() });
        }
        let memory = String::from_str("memory");
        if config.name == memory {
            return Ok(LoadPlan::Builtin);
        }
        match config.backend_search_method() {
            crate::config::BackendSearchMethod::ByPaths(paths) => Ok(LoadPlan::FromPaths(paths)),
            crate::config::BackendSearchMethod::ByName(b) => {
                let mut f = String::from_str("zbackend_");
                f.append(b.as_str());
                Ok(LoadPlan::Search(f))
            },
        }
    }
}

} // verus!

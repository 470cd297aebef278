use vstd::prelude::*;

verus! {

/// Mathematical form of a list of strings.
pub open spec fn strs_view(v: Seq<String>) -> Seq<Seq<char>> {
    v.map_values(|s: String| s@)
}

/// Mathematical form of a list of key/value settings.
pub open spec fn pairs_view(v: Seq<(String, String)>) -> Seq<(Seq<char>, Seq<char>)> {
    v.map_values(|p: (String, String)| (p.0@, p.1@))
}

/// Configuration of one volume: a named, loaded backend.
pub struct VolumeConfig {
    pub name: String,
    /// Backend to search for by name; the volume's own name when absent.
    pub backend: Option<String>,
    /// Explicit library files to try, in order.
    pub paths: Option<Vec<String>>,
    /// Whether a failure to load this volume is fatal at startup.
    pub required: bool,
    /// Backend-specific settings.
    pub rest: Vec<(String, String)>,
}

pub struct VolumeView {
    pub name: Seq<char>,
    pub backend: Option<Seq<char>>,
    pub paths: Option<Seq<Seq<char>>>,
    pub required: bool,
    pub rest: Seq<(Seq<char>, Seq<char>)>,
}

impl View for VolumeConfig {
    type V = VolumeView;

    open spec fn view(&self) -> VolumeView {
        VolumeView {
            name: self.name@,
            backend: match self.backend {
                Some(b) => Some(b@),
                None => None,
            },
            paths: match self.paths {
                Some(p) => Some(strs_view(p@)),
                None => None,
            },
            required: self.required,
            rest: pairs_view(self.rest@),
        }
    }
}

/// Configuration of one storage instance hosted on a volume.
pub struct StorageConfig {
    pub name: String,
    pub volume_id: String,
    /// The key expression that the storage serves.
    pub key_expr: String,
    /// Backend-specific settings.
    pub rest: Vec<(String, String)>,
}

pub struct StorageView {
    pub name: Seq<char>,
    pub volume_id: Seq<char>,
    pub key_expr: Seq<char>,
    pub rest: Seq<(Seq<char>, Seq<char>)>,
}

impl View for StorageConfig {
    type V = StorageView;

    open spec fn view(&self) -> StorageView {
        StorageView {
            name: self.name@,
            volume_id: self.volume_id@,
            key_expr: self.key_expr@,
            rest: pairs_view(self.rest@),
        }
    }
}

/// The storage manager's whole configuration.
pub struct PluginConfig {
    pub name: String,
    pub backend_search_dirs: Option<Vec<String>>,
    pub volumes: Vec<VolumeConfig>,
    pub storages: Vec<StorageConfig>,
}

pub open spec fn volumes_view(v: Seq<VolumeConfig>) -> Seq<VolumeView> {
    v.map_values(|c: VolumeConfig| c@)
}

pub open spec fn storages_view(v: Seq<StorageConfig>) -> Seq<StorageView> {
    v.map_values(|c: StorageConfig| c@)
}

/// How the library of a volume's backend is found.
pub enum BackendSearchMethod {
    ByPaths(Vec<String>),
    ByName(String),
}

pub enum SearchView {
    ByPaths(Seq<Seq<char>>),
    ByName(Seq<char>),
}

impl View for BackendSearchMethod {
    type V = SearchView;

    open spec fn view(&self) -> SearchView {
        match self {
            BackendSearchMethod::ByPaths(p) => SearchView::ByPaths(strs_view(p@)),
            BackendSearchMethod::ByName(n) => SearchView::ByName(n@),
        }
    }
}

/// Explicit paths win; otherwise the backend's name, or else the volume's.
pub open spec fn search_method_of(v: VolumeView) -> SearchView {
    match v.paths {
        Some(p) => SearchView::ByPaths(p),
        None => match v.backend {
            Some(b) => SearchView::ByName(b),
            None => SearchView::ByName(v.name),
        },
    }
}

pub fn clone_strs(v: &Vec<String>) -> (r: Vec<String>)
    ensures
        r@ == v@,
{
    let mut r: Vec<String> = Vec::new();
    let mut i: usize = 0;
    while i < v.len()
        invariant
            i <= v@.len(),
            r@ == v@.subrange(0, i as int),
        decreases v@.len() - i,
    {
        r.push(v[i].clone());
        i = i + 1;
        assert(r@ =~= v@.subrange(0, i as int));
    }
    assert(r@ =~= v@);
    r
}

pub fn clone_pairs(v: &Vec<(String, String)>) -> (r: Vec<(String, String)>)
    ensures
        r@ == v@,
{
    let mut r: Vec<(String, String)> = Vec::new();
    let mut i: usize = 0;
    while i < v.len()
        invariant
            i <= v@.len(),
            r@ == v@.subrange(0, i as int),
        decreases v@.len() - i,
    {
        r.push((v[i].0.clone(), v[i].1.clone()));
        i = i + 1;
        assert(r@ =~= v@.subrange(0, i as int));
    }
    assert(r@ =~= v@);
    r
}

pub fn strs_eq(a: &Vec<String>, b: &Vec<String>) -> (r: bool)
    ensures
        r == (strs_view(a@) == strs_view(b@)),
{
    if a.len() != b.len() {
        assert(strs_view(a@).len() != strs_view(b@).len());
        return false;
    }
    let mut i: usize = 0;
    while i < a.len()
        invariant
            i <= a@.len(),
            a@.len() == b@.len(),
            forall|k: int| 0 <= k < i ==> a@[k]@ == b@[k]@,
        decreases a@.len() - i,
    {
        if a[i] != b[i] {
            assert(strs_view(a@)[i as int] != strs_view(b@)[i as int]);
            return false;
        }
        i = i + 1;
    }
    assert(strs_view(a@) =~= strs_view(b@));
    true
}

pub fn pairs_eq(a: &Vec<(String, String)>, b: &Vec<(String, String)>) -> (r: bool)
    ensures
        r == (pairs_view(a@) == pairs_view(b@)),
{
    if a.len() != b.len() {
        assert(pairs_view(a@).len() != pairs_view(b@).len());
        return false;
    }
    let mut i: usize = 0;
    while i < a.len()
        invariant
            i <= a@.len(),
            a@.len() == b@.len(),
            forall|k: int| 0 <= k < i ==> a@[k].0@ == b@[k].0@ && a@[k].1@ == b@[k].1@,
        decreases a@.len() - i,
    {
        if a[i].0 != b[i].0 || a[i].1 != b[i].1 {
            assert(pairs_view(a@)[i as int] != pairs_view(b@)[i as int]);
            return false;
        }
        i = i + 1;
    }
    assert(pairs_view(a@) =~= pairs_view(b@));
    true
}

impl VolumeConfig {
    pub fn copy(&self) -> (r: VolumeConfig)
        ensures
            r@ == self@,
    {
        VolumeConfig {
            name: self.name.clone(),
            backend: match &self.backend {
                Some(b) => Some(b.clone()),
                None => None,
            },
            paths: match &self.paths {
                Some(p) => Some(clone_strs(p)),
                None => None,
            },
            required: self.required,
            rest: clone_pairs(&self.rest),
        }
    }

    /// Whether two volume configurations are the same in every setting.
    pub fn same_as(&self, other: &VolumeConfig) -> (r: bool)
        ensures
            r == (self@ == other@),
    {
        if self.name != other.name || self.required != other.required {
            return false;
        }
        let b = match (&self.backend, &other.backend) {
            (Some(x), Some(y)) => *x == *y,
            (None, None) => true,
            _ => false,
        };
        if !b {
            return false;
        }
        let p = match (&self.paths, &other.paths) {
            (Some(x), Some(y)) => strs_eq(x, y),
            (None, None) => true,
            _ => false,
        };
        if !p {
            return false;
        }
        pairs_eq(&self.rest, &other.rest)
    }

    pub fn backend_search_method(&self) -> (r: BackendSearchMethod)
        ensures
            r@ == search_method_of(self@),
    {
        match &self.paths {
            Some(p) => BackendSearchMethod::ByPaths(clone_strs(p)),
            None => match &self.backend {
                Some(b) => BackendSearchMethod::ByName(b.clone()),
                None => BackendSearchMethod::ByName(self.name.clone()),
            },
        }
    }
}

impl StorageConfig {
    pub fn copy(&self) -> (r: StorageConfig)
        ensures
            r@ == self@,
    {
        StorageConfig {
            name: self.name.clone(),
            volume_id: self.volume_id.clone(),
            key_expr: self.key_expr.clone(),
            rest: clone_pairs(&self.rest),
        }
    }

    /// Whether two storage configurations are the same in every setting.
    pub fn same_as(&self, other: &StorageConfig) -> (r: bool)
        ensures
            r == (self@ == other@),
    {
        if self.name != other.name || self.volume_id != other.volume_id
            || self.key_expr != other.key_expr {
            return false;
        }
        pairs_eq(&self.rest, &other.rest)
    }
}

} // verus!

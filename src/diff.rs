use vstd::prelude::*;

use crate::config::{
    storages_view, volumes_view, PluginConfig, StorageConfig, StorageView, VolumeConfig, VolumeView,
};

verus! {

/// One step of a reconciliation between two configurations.
pub enum ConfigDiff {
    DeleteVolume(VolumeConfig),
    AddVolume(VolumeConfig),
    DeleteStorage(StorageConfig),
    AddStorage(StorageConfig),
}

pub enum DiffView {
    DeleteVolume(VolumeView),
    AddVolume(VolumeView),
    DeleteStorage(StorageView),
    AddStorage(StorageView),
}

impl View for ConfigDiff {
    type V = DiffView;

    open spec fn view(&self) -> DiffView {
        match self {
            ConfigDiff::DeleteVolume(v) => DiffView::DeleteVolume(v@),
            ConfigDiff::AddVolume(v) => DiffView::AddVolume(v@),
            ConfigDiff::DeleteStorage(s) => DiffView::DeleteStorage(s@),
            ConfigDiff::AddStorage(s) => DiffView::AddStorage(s@),
        }
    }
}

pub open spec fn diffs_view(d: Seq<ConfigDiff>) -> Seq<DiffView> {
    d.map_values(|x: ConfigDiff| x@)
}

/// The parts of a configuration that reconciliation compares.
pub struct ConfigView {
    pub volumes: Seq<VolumeView>,
    pub storages: Seq<StorageView>,
}

pub open spec fn config_view(c: PluginConfig) -> ConfigView {
    ConfigView { volumes: volumes_view(c.volumes@), storages: storages_view(c.storages@) }
}

/// Every volume named `n` is the same, setting for setting, on both sides.
pub open spec fn volume_stable(n: Seq<char>, old: Seq<VolumeView>, new: Seq<VolumeView>) -> bool {
    &&& forall|i: int| 0 <= i < old.len() && old[i].name == n ==> new.contains(old[i])
    &&& forall|j: int| 0 <= j < new.len() && new[j].name == n ==> old.contains(new[j])
}

/// A storage survives a reconciliation when it is unchanged and so is its volume.
pub open spec fn storage_kept(s: StorageView, old: ConfigView, new: ConfigView) -> bool {
    &&& old.storages.contains(s)
    &&& new.storages.contains(s)
    &&& volume_stable(s.volume_id, old.volumes, new.volumes)
}

/// The storages of `ss` that are not kept, each as a deletion or an addition, in order.
pub open spec fn storage_diffs(
    ss: Seq<StorageView>,
    old: ConfigView,
    new: ConfigView,
    add: bool,
) -> Seq<DiffView>
    decreases ss.len(),
{
    if ss.len() == 0 {
        Seq::empty()
    } else {
        let prev = storage_diffs(ss.drop_last(), old, new, add);
        let s = ss.last();
        if storage_kept(s, old, new) {
            prev
        } else if add {
            prev.push(DiffView::AddStorage(s))
        } else {
            prev.push(DiffView::DeleteStorage(s))
        }
    }
}

/// The volumes of `vs` that `other` does not hold, each as a deletion or an addition, in order.
pub open spec fn volume_diffs(vs: Seq<VolumeView>, other: Seq<VolumeView>, add: bool) -> Seq<
    DiffView,
>
    decreases vs.len(),
{
    if vs.len() == 0 {
        Seq::empty()
    } else {
        let prev = volume_diffs(vs.drop_last(), other, add);
        let v = vs.last();
        if other.contains(v) {
            prev
        } else if add {
            prev.push(DiffView::AddVolume(v))
        } else {
            prev.push(DiffView::DeleteVolume(v))
        }
    }
}

/// Storage deletions, then volume deletions, then volume additions, then storage additions.
pub open spec fn config_diffs(old: ConfigView, new: ConfigView) -> Seq<DiffView> {
    storage_diffs(old.storages, old, new, false) + volume_diffs(old.volumes, new.volumes, false)
        + volume_diffs(new.volumes, old.volumes, true) + storage_diffs(
        new.storages,
        old,
        new,
        true,
    )
}

fn contains_volume(vs: &Vec<VolumeConfig>, v: &VolumeConfig) -> (r: bool)
    ensures
        r == volumes_view(vs@).contains(v@),
{
    let mut i: usize = 0;
    while i < vs.len()
        invariant
            i <= vs@.len(),
            forall|k: int| 0 <= k < i ==> volumes_view(vs@)[k] != v@,
        decreases vs@.len() - i,
    {
        if vs[i].same_as(v) {
            assert(volumes_view(vs@)[i as int] == v@);
            return true;
        }
        i = i + 1;
    }
    false
}

fn contains_storage(ss: &Vec<StorageConfig>, s: &StorageConfig) -> (r: bool)
    ensures
        r == storages_view(ss@).contains(s@),
{
    let mut i: usize = 0;
    while i < ss.len()
        invariant
            i <= ss@.len(),
            forall|k: int| 0 <= k < i ==> storages_view(ss@)[k] != s@,
        decreases ss@.len() - i,
    {
        if ss[i].same_as(s) {
            assert(storages_view(ss@)[i as int] == s@);
            return true;
        }
        i = i + 1;
    }
    false
}

fn all_named_within(n: &String, vs: &Vec<VolumeConfig>, other: &Vec<VolumeConfig>) -> (r: bool)
    ensures
        r == (forall|i: int|
            0 <= i < vs@.len() && volumes_view(vs@)[i].name == n@ ==> volumes_view(
                other@,
            ).contains(#[trigger] volumes_view(vs@)[i])),
{
    let mut i: usize = 0;
    while i < vs.len()
        invariant
            i <= vs@.len(),
            forall|k: int|
                0 <= k < i && volumes_view(vs@)[k].name == n@ ==> volumes_view(other@).contains(
                    #[trigger] volumes_view(vs@)[k],
                ),
        decreases vs@.len() - i,
    {
        if vs[i].name == *n && !contains_volume(other, &vs[i]) {
            assert(volumes_view(vs@)[i as int] == vs@[i as int]@);
            return false;
        }
        i = i + 1;
    }
    true
}

fn is_kept(s: &StorageConfig, from: &PluginConfig, to: &PluginConfig) -> (r: bool)
    ensures
        r == storage_kept(s@, config_view(*from), config_view(*to)),
{
    contains_storage(&from.storages, s) && contains_storage(&to.storages, s) && all_named_within(
        &s.volume_id,
        &from.volumes,
        &to.volumes,
    ) && all_named_within(&s.volume_id, &to.volumes, &from.volumes)
}

/// Appends to `out` the steps for the storages of `ss` that are not kept.
fn push_storage_diffs(
    out: &mut Vec<ConfigDiff>,
    ss: &Vec<StorageConfig>,
    from: &PluginConfig,
    to: &PluginConfig,
    add: bool,
)
    ensures
        diffs_view(final(out)@) == diffs_view(old(out)@) + storage_diffs(
            storages_view(ss@),
            config_view(*from),
            config_view(*to),
            add,
        ),
{
    let ghost base = diffs_view(out@);
    let ghost all = storages_view(ss@);
    let mut i: usize = 0;
    assert(all.subrange(0, 0).len() == 0);
    assert(base + Seq::<DiffView>::empty() =~= base);
    while i < ss.len()
        invariant
            i <= ss@.len(),
            all == storages_view(ss@),
            diffs_view(out@) == base + storage_diffs(
                all.subrange(0, i as int),
                config_view(*from),
                config_view(*to),
                add,
            ),
        decreases ss@.len() - i,
    {
        let ghost pre = all.subrange(0, i as int);
        assert(all.subrange(0, i + 1).drop_last() =~= pre);
        assert(all.subrange(0, i + 1).last() == ss@[i as int]@);
        if !is_kept(&ss[i], from, to) {
            let c = ss[i].copy();
            let d = if add {
                ConfigDiff::AddStorage(c)
            } else {
                ConfigDiff::DeleteStorage(c)
            };
            let ghost prev = out@;
            out.push(d);
            assert(diffs_view(out@) =~= diffs_view(prev).push(d@));
        }
        i = i + 1;
    }
    assert(all.subrange(0, ss@.len() as int) =~= all);
}

/// Appends to `out` the steps for the volumes of `vs` that `other` does not hold.
fn push_volume_diffs(
    out: &mut Vec<ConfigDiff>,
    vs: &Vec<VolumeConfig>,
    other: &Vec<VolumeConfig>,
    add: bool,
)
    ensures
        diffs_view(final(out)@) == diffs_view(old(out)@) + volume_diffs(
            volumes_view(vs@),
            volumes_view(other@),
            add,
        ),
{
    let ghost base = diffs_view(out@);
    let ghost all = volumes_view(vs@);
    let mut i: usize = 0;
    assert(all.subrange(0, 0).len() == 0);
    assert(base + Seq::<DiffView>::empty() =~= base);
    while i < vs.len()
        invariant
            i <= vs@.len(),
            all == volumes_view(vs@),
            diffs_view(out@) == base + volume_diffs(
                all.subrange(0, i as int),
                volumes_view(other@),
                add,
            ),
        decreases vs@.len() - i,
    {
        let ghost pre = all.subrange(0, i as int);
        assert(all.subrange(0, i + 1).drop_last() =~= pre);
        assert(all.subrange(0, i + 1).last() == vs@[i as int]@);
        if !contains_volume(other, &vs[i]) {
            let c = vs[i].copy();
            let d = if add {
                ConfigDiff::AddVolume(c)
            } else {
                ConfigDiff::DeleteVolume(c)
            };
            let ghost prev = out@;
            out.push(d);
            assert(diffs_view(out@) =~= diffs_view(prev).push(d@));
        }
        i = i + 1;
    }
    assert(all.subrange(0, vs@.len() as int) =~= all);
}

impl ConfigDiff {
    /// The steps that take a runtime configured by `from` to one configured by `to`:
    /// a changed volume is deleted and added again, and so are the storages it hosts.
    pub fn diffs(from: &PluginConfig, to: &PluginConfig) -> (r: Vec<ConfigDiff>)
        ensures
            diffs_view(r@) == config_diffs(config_view(*from), config_view(*to)),
    {
        let mut r: Vec<ConfigDiff> = Vec::new();
        assert(diffs_view(r@) =~= Seq::<DiffView>::empty());
        push_storage_diffs(&mut r, &from.storages, from, to, false);
        push_volume_diffs(&mut r, &from.volumes, &to.volumes, false);
        push_volume_diffs(&mut r, &to.volumes, &from.volumes, true);
        push_storage_diffs(&mut r, &to.storages, from, to, true);
        assert(diffs_view(r@) =~= config_diffs(config_view(*from), config_view(*to)));
        r
    }

    /// The steps that bring up `config` on a runtime that holds none of it: every
    /// volume, then every storage.
    pub fn startup_diffs(config: &PluginConfig) -> (r: Vec<ConfigDiff>)
        ensures
            diffs_view(r@) == config_diffs(
                ConfigView { volumes: Seq::empty(), storages: Seq::empty() },
                config_view(*config),
            ),
    {
        let empty = PluginConfig {
            name: config.name.clone(),
            backend_search_dirs: None,
            volumes: Vec::new(),
            storages: Vec::new(),
        };
        let r = ConfigDiff::diffs(&empty, config);
        assert(volumes_view(empty.volumes@) =~= Seq::empty());
        assert(storages_view(empty.storages@) =~= Seq::empty());
        r
    }
}

proof fn lemma_no_storage_diffs(ss: Seq<StorageView>, c: ConfigView, add: bool)
    requires
        forall|k: int| 0 <= k < ss.len() ==> c.storages.contains(#[trigger] ss[k]),
    ensures
        storage_diffs(ss, c, c, add).len() == 0,
    decreases ss.len(),
{
    if ss.len() > 0 {
        let s = ss.last();
        assert(c.storages.contains(ss[ss.len() - 1]));
        assert forall|i: int| 0 <= i < c.volumes.len() && c.volumes[i].name == s.volume_id implies c.volumes.contains(
            c.volumes[i],
        ) by {
            assert(c.volumes[i] == c.volumes[i]);
        }
        assert(storage_kept(s, c, c));
        let pre = ss.drop_last();
        assert forall|k: int| 0 <= k < pre.len() implies c.storages.contains(#[trigger] pre[k]) by {
            assert(pre[k] == ss[k]);
        }
        lemma_no_storage_diffs(pre, c, add);
    }
}

proof fn lemma_no_volume_diffs(vs: Seq<VolumeView>, other: Seq<VolumeView>, add: bool)
    requires
        forall|k: int| 0 <= k < vs.len() ==> other.contains(#[trigger] vs[k]),
    ensures
        volume_diffs(vs, other, add).len() == 0,
    decreases vs.len(),
{
    if vs.len() > 0 {
        assert(other.contains(vs[vs.len() - 1]));
        let pre = vs.drop_last();
        assert forall|k: int| 0 <= k < pre.len() implies other.contains(#[trigger] pre[k]) by {
            assert(pre[k] == vs[k]);
        }
        lemma_no_volume_diffs(pre, other, add);
    }
}

/// Reconciling a configuration with itself yields no step at all.
pub proof fn lemma_self_diff_empty(c: ConfigView)
    ensures
        config_diffs(c, c).len() == 0,
{
    assert forall|k: int| 0 <= k < c.storages.len() implies c.storages.contains(
        #[trigger] c.storages[k],
    ) by {
        assert(c.storages[k] == c.storages[k]);
    }
    assert forall|k: int| 0 <= k < c.volumes.len() implies c.volumes.contains(
        #[trigger] c.volumes[k],
    ) by {
        assert(c.volumes[k] == c.volumes[k]);
    }
    lemma_no_storage_diffs(c.storages, c, false);
    lemma_no_storage_diffs(c.storages, c, true);
    lemma_no_volume_diffs(c.volumes, c.volumes, false);
    lemma_no_volume_diffs(c.volumes, c.volumes, true);
}

} // verus!

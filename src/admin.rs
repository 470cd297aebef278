use vstd::prelude::*;
use vstd::string::StringExecFns;

use crate::runtime::{
    hosts_worker, storage_at, storage_removed, volume_removed, StorageHandle, StorageRuntime,
    VolumeHandle,
};

verus! {

/// Where the value of an administrative key comes from.
pub enum AdminSource {
    /// The build identifier.
    Version,
    /// The library path of a volume, given here.
    LibPath(String),
    /// The status that the backend of the named volume reports.
    BackendStatus(String),
    /// The status that the storage worker of this number answers, if it answers.
    StorageStatus(u64),
}

pub enum SourceView {
    Version,
    LibPath(Seq<char>),
    BackendStatus(Seq<char>),
    StorageStatus(u64),
}

impl View for AdminSource {
    type V = SourceView;

    open spec fn view(&self) -> SourceView {
        match self {
            AdminSource::Version => SourceView::Version,
            AdminSource::LibPath(p) => SourceView::LibPath(p@),
            AdminSource::BackendStatus(v) => SourceView::BackendStatus(v@),
            AdminSource::StorageStatus(w) => SourceView::StorageStatus(*w),
        }
    }
}

/// One key of the administrative space, with the source of its value.
pub struct AdminEntry {
    pub key: String,
    pub source: AdminSource,
}

impl View for AdminEntry {
    type V = (Seq<char>, SourceView);

    open spec fn view(&self) -> (Seq<char>, SourceView) {
        (self.key@, self.source@)
    }
}

pub open spec fn entries_view(es: Seq<AdminEntry>) -> Seq<(Seq<char>, SourceView)> {
    es.map_values(|e: AdminEntry| e@)
}

/// For each volume, its `__path__` key and then its own key.
pub open spec fn volume_entries(prefix: Seq<char>, vs: Seq<VolumeHandle>) -> Seq<
    (Seq<char>, SourceView),
>
    decreases vs.len(),
{
    if vs.len() == 0 {
        Seq::empty()
    } else {
        let v = vs.last();
        let key = prefix + "/volumes/"@ + v.name@;
        volume_entries(prefix, vs.drop_last()).push((key + "/__path__"@, SourceView::LibPath(v.lib_path@))).push(
            (key, SourceView::BackendStatus(v.name@)),
        )
    }
}

/// For each storage, its key.
pub open spec fn storage_entries(prefix: Seq<char>, ss: Seq<StorageHandle>) -> Seq<
    (Seq<char>, SourceView),
>
    decreases ss.len(),
{
    if ss.len() == 0 {
        Seq::empty()
    } else {
        let s = ss.last();
        storage_entries(prefix, ss.drop_last()).push(
            (prefix + "/storages/"@ + s.name@, SourceView::StorageStatus(s.worker)),
        )
    }
}

/// Every key of the administrative space under `prefix`, in order.
pub open spec fn admin_listing(rt: StorageRuntime, prefix: Seq<char>) -> Seq<
    (Seq<char>, SourceView),
> {
    seq![(prefix + "/version"@, SourceView::Version)] + volume_entries(prefix, rt.volumes@)
        + storage_entries(prefix, rt.storages@)
}

/// The entries of `es` whose flag in `m` is set, in order.
pub open spec fn selected(es: Seq<(Seq<char>, SourceView)>, m: Seq<bool>) -> Seq<
    (Seq<char>, SourceView),
>
    decreases es.len(),
{
    if es.len() == 0 {
        Seq::empty()
    } else {
        let prev = selected(es.drop_last(), m);
        if m[es.len() - 1] {
            prev.push(es.last())
        } else {
            prev
        }
    }
}

fn push_entry(out: &mut Vec<AdminEntry>, e: AdminEntry)
    ensures
        entries_view(final(out)@) == entries_view(old(out)@).push(e@),
{
    out.push(e);
    assert(entries_view(out@) =~= entries_view(old(out)@).push(e@));
}

fn concat(prefix: &String, a: &str, b: &String) -> (r: String)
    ensures
        r@ == prefix@ + a@ + b@,
{
    let mut k = prefix.clone();
    k.append(a);
    k.append(b.as_str());
    k
}

impl StorageRuntime {
    /// Every key of the administrative space under `plugin_status_key`, each with where
    /// its value comes from: the version, each volume's library path and status, each
    /// storage's status.
    pub fn admin_entries(&self, plugin_status_key: &String) -> (r: Vec<AdminEntry>)
        ensures
            entries_view(r@) == admin_listing(*self, plugin_status_key@),
    {
        let ghost prefix = plugin_status_key@;
        let mut r: Vec<AdminEntry> = Vec::new();
        let mut k = plugin_status_key.clone();
        k.append("/version");
        push_entry(&mut r, AdminEntry { key: k, source: AdminSource::Version });
        assert(entries_view(r@) =~= seq![(prefix + "/version"@, SourceView::Version)]);
        let ghost head = entries_view(r@);
        let mut i: usize = 0;
        while i < self.volumes.len()
            invariant
                i <= self.volumes@.len(),
                prefix == plugin_status_key@,
                head == seq![(prefix + "/version"@, SourceView::Version)],
                entries_view(r@) == head + volume_entries(
                    prefix,
                    self.volumes@.subrange(0, i as int),
                ),
            decreases self.volumes@.len() - i,
        {
            let v = &self.volumes[i];
            let key = concat(plugin_status_key, "/volumes/", &v.name);
            let mut path_key = key.clone();
            path_key.append("/__path__");
            push_entry(
                &mut r,
                AdminEntry { key: path_key, source: AdminSource::LibPath(v.lib_path.clone()) },
            );
            push_entry(&mut r, AdminEntry { key, source: AdminSource::BackendStatus(v.name.clone()) });
            assert(self.volumes@.subrange(0, i + 1).drop_last() =~= self.volumes@.subrange(
                0,
                i as int,
            ));
            i = i + 1;
        }
        assert(self.volumes@.subrange(0, i as int) =~= self.volumes@);
        let ghost mid = entries_view(r@);
        assert(mid + storage_entries(prefix, self.storages@.subrange(0, 0)) =~= mid);
        let mut j: usize = 0;
        while j < self.storages.len()
            invariant
                j <= self.storages@.len(),
                prefix == plugin_status_key@,
                entries_view(r@) == mid + storage_entries(
                    prefix,
                    self.storages@.subrange(0, j as int),
                ),
            decreases self.storages@.len() - j,
        {
            let s = &self.storages[j];
            let key = concat(plugin_status_key, "/storages/", &s.name);
            push_entry(&mut r, AdminEntry { key, source: AdminSource::StorageStatus(s.worker) });
            assert(self.storages@.subrange(0, j + 1).drop_last() =~= self.storages@.subrange(
                0,
                j as int,
            ));
            j = j + 1;
        }
        assert(self.storages@.subrange(0, j as int) =~= self.storages@);
        r
    }
}

impl AdminEntry {
    pub fn copy(&self) -> (r: AdminEntry)
        ensures
            r@ == self@,
    {
        let source = match &self.source {
            AdminSource::Version => AdminSource::Version,
            AdminSource::LibPath(p) => AdminSource::LibPath(p.clone()),
            AdminSource::BackendStatus(v) => AdminSource::BackendStatus(v.clone()),
            AdminSource::StorageStatus(w) => AdminSource::StorageStatus(*w),
        };
        AdminEntry { key: self.key.clone(), source }
    }
}

/// Keeps the entries whose key matched the selector, as `matched` says of each, in order.
pub fn select_entries(entries: &Vec<AdminEntry>, matched: &Vec<bool>) -> (r: Vec<AdminEntry>)
    requires
        matched@.len() == entries@.len(),
    ensures
        entries_view(r@) == selected(entries_view(entries@), matched@),
{
    let ghost all = entries_view(entries@);
    let mut r: Vec<AdminEntry> = Vec::new();
    let mut i: usize = 0;
    assert(entries_view(r@) =~= selected(all.subrange(0, 0), matched@));
    while i < entries.len()
        invariant
            matched@.len() == entries@.len(),
            all == entries_view(entries@),
            i <= entries@.len(),
            entries_view(r@) == selected(all.subrange(0, i as int), matched@),
        decreases entries@.len() - i,
    {
        let ghost sub = all.subrange(0, i + 1);
        assert(sub.drop_last() =~= all.subrange(0, i as int));
        assert(sub.last() == entries@[i as int]@);
        if matched[i] {
            push_entry(&mut r, entries[i].copy());
        }
        i = i + 1;
    }
    assert(all.subrange(0, entries@.len() as int) =~= all);
    r
}

proof fn lemma_volume_entries_no_storage(prefix: Seq<char>, vs: Seq<VolumeHandle>)
    ensures
        forall|k: int|
            0 <= k < volume_entries(prefix, vs).len() ==> !(#[trigger] volume_entries(
                prefix,
                vs,
            )[k].1 is StorageStatus),
    decreases vs.len(),
{
    if vs.len() > 0 {
        lemma_volume_entries_no_storage(prefix, vs.drop_last());
    }
}

proof fn lemma_storage_entries_workers(prefix: Seq<char>, ss: Seq<StorageHandle>, w: u64)
    requires
        forall|i: int| 0 <= i < ss.len() ==> #[trigger] ss[i].worker != w,
    ensures
        forall|k: int|
            0 <= k < storage_entries(prefix, ss).len() ==> #[trigger] storage_entries(
                prefix,
                ss,
            )[k].1 != SourceView::StorageStatus(w),
    decreases ss.len(),
{
    if ss.len() > 0 {
        let pre = ss.drop_last();
        assert forall|i: int| 0 <= i < pre.len() implies #[trigger] pre[i].worker != w by {
            assert(pre[i] == ss[i]);
        }
        assert(ss[ss.len() - 1].worker != w);
        lemma_storage_entries_workers(prefix, pre, w);
    }
}

/// The administrative listing offers a status for worker `w` only where a registered
/// storage runs as `w`.
pub proof fn lemma_listing_without_worker(rt: StorageRuntime, prefix: Seq<char>, w: u64)
    requires
        forall|i: int| 0 <= i < rt.storages@.len() ==> #[trigger] rt.storages@[i].worker != w,
    ensures
        forall|k: int|
            0 <= k < admin_listing(rt, prefix).len() ==> #[trigger] admin_listing(rt, prefix)[k].1
                != SourceView::StorageStatus(w),
{
    let head = seq![(prefix + "/version"@, SourceView::Version)];
    let ve = volume_entries(prefix, rt.volumes@);
    let se = storage_entries(prefix, rt.storages@);
    lemma_volume_entries_no_storage(prefix, rt.volumes@);
    lemma_storage_entries_workers(prefix, rt.storages@, w);
    assert forall|k: int| 0 <= k < admin_listing(rt, prefix).len() implies #[trigger] admin_listing(
        rt,
        prefix,
    )[k].1 != SourceView::StorageStatus(w) by {
        let l = admin_listing(rt, prefix);
        if k == 0 {
            assert(l[k] == head[0]);
        } else if k < 1 + ve.len() {
            assert(l[k] == ve[k - 1]);
        } else {
            assert(l[k] == se[k - 1 - ve.len()]);
        }
    }
}

/// A storage that was stopped and removed offers no status any more: the listing holds
/// nothing for its worker, and its worker number is never handed out again.
pub proof fn lemma_stopped_storage_has_no_status(
    before: StorageRuntime,
    after: StorageRuntime,
    v: Seq<char>,
    s: Seq<char>,
    w: u64,
    prefix: Seq<char>,
)
    requires
        before.wf(),
        after.next_worker == before.next_worker,
        storage_removed(before, after, v, s, w),
    ensures
        forall|k: int|
            0 <= k < admin_listing(after, prefix).len() ==> #[trigger] admin_listing(
                after,
                prefix,
            )[k].1 != SourceView::StorageStatus(w),
        w < after.next_worker,
{
    let at = choose|i: int|
        0 <= i < before.storages@.len() && #[trigger] before.storages@[i].worker == w
            && before.storages@[i].volume_id@ == v && before.storages@[i].name@ == s
            && after.storages@ == before.storages@.remove(i);
    assert forall|i: int| 0 <= i < after.storages@.len() implies #[trigger] after.storages@[i].worker
        != w by {
        let pi = if i < at { i } else { i + 1 };
        assert(after.storages@[i] == before.storages@[pi]);
    }
    lemma_listing_without_worker(after, prefix, w);
}

/// Removing a volume removes all of its storages: none of them stays registered, and the
/// listing offers a status for none of their workers.
pub proof fn lemma_removed_volume_has_no_storages(
    before: StorageRuntime,
    after: StorageRuntime,
    n: Seq<char>,
    ws: Seq<u64>,
    prefix: Seq<char>,
)
    requires
        before.wf(),
        volume_removed(before, after, n, ws),
    ensures
        forall|s: Seq<char>| !#[trigger] after.has_storage(n, s),
        forall|t: int, k: int|
            #![trigger ws[t], admin_listing(after, prefix)[k]]
            0 <= t < ws.len() && 0 <= k < admin_listing(after, prefix).len() ==> admin_listing(
                after,
                prefix,
            )[k].1 != SourceView::StorageStatus(ws[t]),
{
    assert forall|s: Seq<char>| !#[trigger] after.has_storage(n, s) by {}
    assert forall|t: int, k: int|
        #![trigger ws[t], admin_listing(after, prefix)[k]]
        0 <= t < ws.len() && 0 <= k < admin_listing(after, prefix).len() implies admin_listing(
        after,
        prefix,
    )[k].1 != SourceView::StorageStatus(ws[t]) by {
        let w = ws[t];
        assert(hosts_worker(before.storages@, n, w));
        let j = choose|j: int|
            0 <= j < before.storages@.len() && #[trigger] before.storages@[j].worker == w
                && before.storages@[j].volume_id@ == n;
        assert forall|i: int| 0 <= i < after.storages@.len() implies #[trigger] after.storages@[i].worker
            != w by {
            let e = after.storages@[i];
            assert(before.storages@.contains(e));
            let pi = choose|pi: int| 0 <= pi < before.storages@.len() && before.storages@[pi] == e;
            assert(storage_at(after.storages@, e.volume_id@, e.name@));
            assert(after.has_storage(e.volume_id@, e.name@));
            assert(e.volume_id@ != n);
            assert(pi != j);
        }
        lemma_listing_without_worker(after, prefix, w);
    }
}


proof fn lemma_char_after(prefix: Seq<char>, lit: Seq<char>, rest: Seq<char>)
    requires
        lit.len() >= 2,
    ensures
        (prefix + lit + rest)[prefix.len() + 1int] == lit[1],
{
    assert((prefix + lit + rest)[prefix.len() + 1int] == (prefix + lit)[prefix.len() + 1int]);
}

/// Key of the storage named `s` under `prefix`.
pub open spec fn storage_key(prefix: Seq<char>, s: Seq<char>) -> Seq<char> {
    prefix + "/storages/"@ + s
}

proof fn lemma_volume_keys_differ(prefix: Seq<char>, vs: Seq<VolumeHandle>, s: Seq<char>)
    ensures
        forall|k: int|
            0 <= k < volume_entries(prefix, vs).len() ==> #[trigger] volume_entries(
                prefix,
                vs,
            )[k].0 != storage_key(prefix, s),
    decreases vs.len(),
{
    reveal_strlit("/storages/");
    reveal_strlit("/volumes/");
    reveal_strlit("/__path__");
    if vs.len() > 0 {
        lemma_volume_keys_differ(prefix, vs.drop_last(), s);
        let v = vs.last();
        let key = prefix + "/volumes/"@ + v.name@;
        lemma_char_after(prefix, "/storages/"@, s);
        lemma_char_after(prefix, "/volumes/"@, v.name@);
        lemma_char_after(prefix, "/volumes/"@, v.name@ + "/__path__"@);
        assert(key + "/__path__"@ =~= prefix + "/volumes/"@ + (v.name@ + "/__path__"@));
        assert(key != storage_key(prefix, s));
        assert(key + "/__path__"@ != storage_key(prefix, s));
        let prev = volume_entries(prefix, vs.drop_last());
        let all = volume_entries(prefix, vs);
        assert forall|k: int| 0 <= k < all.len() implies #[trigger] all[k].0 != storage_key(prefix, s) by {
            if k < prev.len() {
                assert(all[k] == prev[k]);
            } else if k == prev.len() {
                assert(all[k].0 == key + "/__path__"@);
            } else {
                assert(all[k].0 == key);
            }
        }
    }
}

proof fn lemma_storage_keys_differ(prefix: Seq<char>, ss: Seq<StorageHandle>, s: Seq<char>)
    requires
        forall|i: int| 0 <= i < ss.len() ==> #[trigger] ss[i].name@ != s,
    ensures
        forall|k: int|
            0 <= k < storage_entries(prefix, ss).len() ==> #[trigger] storage_entries(
                prefix,
                ss,
            )[k].0 != storage_key(prefix, s),
    decreases ss.len(),
{
    if ss.len() > 0 {
        let pre = ss.drop_last();
        assert forall|i: int| 0 <= i < pre.len() implies #[trigger] pre[i].name@ != s by {
            assert(pre[i] == ss[i]);
        }
        lemma_storage_keys_differ(prefix, pre, s);
        let n = ss[ss.len() - 1].name@;
        let head = prefix + "/storages/"@;
        if head + n == head + s {
            assert((head + n).subrange(head.len() as int, (head + n).len() as int) =~= n);
            assert((head + s).subrange(head.len() as int, (head + s).len() as int) =~= s);
        }
        let prev = storage_entries(prefix, pre);
        let all = storage_entries(prefix, ss);
        assert forall|k: int| 0 <= k < all.len() implies #[trigger] all[k].0 != storage_key(prefix, s) by {
            if k < prev.len() {
                assert(all[k] == prev[k]);
            } else {
                assert(all[k].0 == head + n);
            }
        }
    }
}

/// When no registered storage is named `s`, the listing holds no key for the name `s`:
/// a stopped storage whose name nobody reuses offers no status.
pub proof fn lemma_listing_without_storage_name(rt: StorageRuntime, prefix: Seq<char>, s: Seq<char>)
    requires
        forall|i: int| 0 <= i < rt.storages@.len() ==> #[trigger] rt.storages@[i].name@ != s,
    ensures
        forall|k: int|
            0 <= k < admin_listing(rt, prefix).len() ==> #[trigger] admin_listing(rt, prefix)[k].0
                != storage_key(prefix, s),
{
    reveal_strlit("/storages/");
    reveal_strlit("/version");
    let head = seq![(prefix + "/version"@, SourceView::Version)];
    let ve = volume_entries(prefix, rt.volumes@);
    let se = storage_entries(prefix, rt.storages@);
    lemma_volume_keys_differ(prefix, rt.volumes@, s);
    lemma_storage_keys_differ(prefix, rt.storages@, s);
    lemma_char_after(prefix, "/storages/"@, s);
    assert(prefix + "/version"@ =~= prefix + "/version"@ + Seq::<char>::empty());
    lemma_char_after(prefix, "/version"@, Seq::<char>::empty());
    assert forall|k: int| 0 <= k < admin_listing(rt, prefix).len() implies #[trigger] admin_listing(
        rt,
        prefix,
    )[k].0 != storage_key(prefix, s) by {
        let l = admin_listing(rt, prefix);
        if k == 0 {
            assert(l[k] == head[0]);
        } else if k < 1 + ve.len() {
            assert(l[k] == ve[k - 1]);
        } else {
            assert(l[k] == se[k - 1 - ve.len()]);
        }
    }
}

/// After `kill_storage` removed the storage `s` of volume `v`, and no other volume hosts a
/// storage of that name, the listing holds no key for it.
pub proof fn lemma_stopped_storage_has_no_key(
    before: StorageRuntime,
    after: StorageRuntime,
    v: Seq<char>,
    s: Seq<char>,
    w: u64,
    prefix: Seq<char>,
)
    requires
        storage_removed(before, after, v, s, w),
        forall|i: int|
            0 <= i < before.storages@.len() && #[trigger] before.storages@[i].name@ == s
                ==> before.storages@[i].volume_id@ == v,
        before.wf(),
    ensures
        forall|k: int|
            0 <= k < admin_listing(after, prefix).len() ==> #[trigger] admin_listing(
                after,
                prefix,
            )[k].0 != storage_key(prefix, s),
{
    let at = choose|i: int|
        0 <= i < before.storages@.len() && #[trigger] before.storages@[i].worker == w
            && before.storages@[i].volume_id@ == v && before.storages@[i].name@ == s
            && after.storages@ == before.storages@.remove(i);
    assert forall|i: int| 0 <= i < after.storages@.len() implies #[trigger] after.storages@[i].name@
        != s by {
        let pi = if i < at { i } else { i + 1 };
        assert(after.storages@[i] == before.storages@[pi]);
        if before.storages@[pi].name@ == s {
            assert(before.storages@[pi].volume_id@ == v);
        }
    }
    lemma_listing_without_storage_name(after, prefix, s);
}

} // verus!

use vstd::prelude::*;

use crate::config::{StorageConfig, StorageView, VolumeView};
use crate::diff::{config_diffs, storage_diffs, storage_kept, volume_diffs, ConfigView, DiffView};
use crate::runtime::{memory_name, storage_removed, volume_removed, StorageRuntime};

verus! {

/// What an observer sees of a runtime: the volume names and the (volume, storage) names.
pub struct NameState {
    pub volumes: Set<Seq<char>>,
    pub storages: Set<(Seq<char>, Seq<char>)>,
}

pub open spec fn skey(s: StorageView) -> (Seq<char>, Seq<char>) {
    (s.volume_id, s.name)
}

pub open spec fn volume_names(vs: Seq<VolumeView>) -> Set<Seq<char>> {
    Set::new(|n: Seq<char>| exists|i: int| 0 <= i < vs.len() && #[trigger] vs[i].name == n)
}

pub open spec fn storage_keys(ss: Seq<StorageView>) -> Set<(Seq<char>, Seq<char>)> {
    Set::new(
        |k: (Seq<char>, Seq<char>)| exists|i: int| 0 <= i < ss.len() && #[trigger] skey(ss[i]) == k,
    )
}

/// The names of a runtime that runs configuration `c`, beside the built-in volume.
pub open spec fn config_state(c: ConfigView) -> NameState {
    NameState {
        volumes: volume_names(c.volumes).insert(memory_name()),
        storages: storage_keys(c.storages),
    }
}

/// Names unique, the built-in volume not configured, each storage on a known volume.
pub open spec fn valid_config(c: ConfigView) -> bool {
    &&& forall|i: int, j: int|
        0 <= i < c.volumes.len() && 0 <= j < c.volumes.len() && i != j ==> c.volumes[i].name
            != c.volumes[j].name
    &&& forall|i: int, j: int|
        0 <= i < c.storages.len() && 0 <= j < c.storages.len() && i != j ==> skey(c.storages[i])
            != skey(c.storages[j])
    &&& forall|i: int| 0 <= i < c.volumes.len() ==> #[trigger] c.volumes[i].name != memory_name()
    &&& forall|i: int|
        0 <= i < c.storages.len() ==> #[trigger] c.storages[i].volume_id == memory_name()
            || volume_names(c.volumes).contains(c.storages[i].volume_id)
}

/// The effect of one step on the names, when every load and start succeeds.
pub open spec fn apply_diff(st: NameState, d: DiffView) -> NameState {
    match d {
        DiffView::DeleteStorage(s) => NameState {
            volumes: st.volumes,
            storages: st.storages.remove(skey(s)),
        },
        DiffView::DeleteVolume(v) => NameState {
            volumes: st.volumes.remove(v.name),
            storages: Set::new(
                |k: (Seq<char>, Seq<char>)| st.storages.contains(k) && k.0 != v.name,
            ),
        },
        DiffView::AddVolume(v) => NameState { volumes: st.volumes.insert(v.name), storages: st.storages },
        DiffView::AddStorage(s) => if st.volumes.contains(s.volume_id) {
            NameState { volumes: st.volumes, storages: st.storages.insert(skey(s)) }
        } else {
            st
        },
    }
}

pub open spec fn apply_all(st: NameState, ds: Seq<DiffView>) -> NameState
    decreases ds.len(),
{
    if ds.len() == 0 {
        st
    } else {
        apply_diff(apply_all(st, ds.drop_last()), ds.last())
    }
}

/// Keys of the storages of `p` that a reconciliation from `a` to `b` does not keep.
pub open spec fn unkept_keys(p: Seq<StorageView>, a: ConfigView, b: ConfigView) -> Set<
    (Seq<char>, Seq<char>),
> {
    Set::new(
        |k: (Seq<char>, Seq<char>)|
            exists|i: int|
                0 <= i < p.len() && #[trigger] skey(p[i]) == k && !storage_kept(p[i], a, b),
    )
}

/// Names of the volumes of `p` that `other` does not hold.
pub open spec fn fresh_names(p: Seq<VolumeView>, other: Seq<VolumeView>) -> Set<Seq<char>> {
    Set::new(
        |n: Seq<char>|
            exists|i: int| 0 <= i < p.len() && #[trigger] p[i].name == n && !other.contains(p[i]),
    )
}

proof fn lemma_apply_concat(st: NameState, x: Seq<DiffView>, y: Seq<DiffView>)
    ensures
        apply_all(st, x + y) == apply_all(apply_all(st, x), y),
    decreases y.len(),
{
    if y.len() == 0 {
        assert(x + y =~= x);
    } else {
        assert((x + y).drop_last() =~= x + y.drop_last());
        assert((x + y).last() == y.last());
        lemma_apply_concat(st, x, y.drop_last());
    }
}

proof fn lemma_delete_storages(st: NameState, p: Seq<StorageView>, a: ConfigView, b: ConfigView)
    ensures
        apply_all(st, storage_diffs(p, a, b, false)) == (NameState {
            volumes: st.volumes,
            storages: st.storages.difference(unkept_keys(p, a, b)),
        }),
    decreases p.len(),
{
    if p.len() == 0 {
        assert(st.storages.difference(unkept_keys(p, a, b)) =~= st.storages);
    } else {
        let q = p.drop_last();
        let s = p.last();
        lemma_delete_storages(st, q, a, b);
        let ds = storage_diffs(p, a, b, false);
        if storage_kept(s, a, b) {
            assert forall|k| #[trigger] unkept_keys(p, a, b).contains(k) == unkept_keys(
                q,
                a,
                b,
            ).contains(k) by {
                if unkept_keys(p, a, b).contains(k) {
                    let i = choose|i: int|
                        0 <= i < p.len() && #[trigger] skey(p[i]) == k && !storage_kept(p[i], a, b);
                    assert(q[i] == p[i]);
                }
                if unkept_keys(q, a, b).contains(k) {
                    let i = choose|i: int|
                        0 <= i < q.len() && #[trigger] skey(q[i]) == k && !storage_kept(q[i], a, b);
                    assert(q[i] == p[i]);
                }
            }
            assert(unkept_keys(p, a, b) =~= unkept_keys(q, a, b));
        } else {
            assert(ds.drop_last() == storage_diffs(q, a, b, false));
            assert forall|k| #[trigger] unkept_keys(p, a, b).contains(k) == unkept_keys(
                q,
                a,
                b,
            ).insert(skey(s)).contains(k) by {
                if unkept_keys(p, a, b).contains(k) {
                    let i = choose|i: int|
                        0 <= i < p.len() && #[trigger] skey(p[i]) == k && !storage_kept(p[i], a, b);
                    if i < q.len() {
                        assert(q[i] == p[i]);
                    }
                }
                if unkept_keys(q, a, b).contains(k) {
                    let i = choose|i: int|
                        0 <= i < q.len() && #[trigger] skey(q[i]) == k && !storage_kept(q[i], a, b);
                    assert(q[i] == p[i]);
                }
                if k == skey(s) {
                    assert(skey(p[p.len() - 1]) == k);
                }
            }
            assert(unkept_keys(p, a, b) =~= unkept_keys(q, a, b).insert(skey(s)));
            assert(st.storages.difference(unkept_keys(q, a, b)).remove(skey(s))
                =~= st.storages.difference(unkept_keys(p, a, b)));
        }
    }
}

proof fn lemma_add_storages(st: NameState, p: Seq<StorageView>, a: ConfigView, b: ConfigView)
    requires
        forall|i: int| 0 <= i < p.len() ==> st.volumes.contains(#[trigger] p[i].volume_id),
    ensures
        apply_all(st, storage_diffs(p, a, b, true)) == (NameState {
            volumes: st.volumes,
            storages: st.storages.union(unkept_keys(p, a, b)),
        }),
    decreases p.len(),
{
    if p.len() == 0 {
        assert(st.storages.union(unkept_keys(p, a, b)) =~= st.storages);
    } else {
        let q = p.drop_last();
        let s = p.last();
        assert forall|i: int| 0 <= i < q.len() implies st.volumes.contains(#[trigger] q[i].volume_id) by {
            assert(q[i] == p[i]);
        }
        lemma_add_storages(st, q, a, b);
        assert(st.volumes.contains(p[p.len() - 1].volume_id));
        let ds = storage_diffs(p, a, b, true);
        if storage_kept(s, a, b) {
            assert forall|k| #[trigger] unkept_keys(p, a, b).contains(k) == unkept_keys(
                q,
                a,
                b,
            ).contains(k) by {
                if unkept_keys(p, a, b).contains(k) {
                    let i = choose|i: int|
                        0 <= i < p.len() && #[trigger] skey(p[i]) == k && !storage_kept(p[i], a, b);
                    assert(q[i] == p[i]);
                }
                if unkept_keys(q, a, b).contains(k) {
                    let i = choose|i: int|
                        0 <= i < q.len() && #[trigger] skey(q[i]) == k && !storage_kept(q[i], a, b);
                    assert(q[i] == p[i]);
                }
            }
            assert(unkept_keys(p, a, b) =~= unkept_keys(q, a, b));
        } else {
            assert(ds.drop_last() == storage_diffs(q, a, b, true));
            assert forall|k| #[trigger] unkept_keys(p, a, b).contains(k) == unkept_keys(
                q,
                a,
                b,
            ).insert(skey(s)).contains(k) by {
                if unkept_keys(p, a, b).contains(k) {
                    let i = choose|i: int|
                        0 <= i < p.len() && #[trigger] skey(p[i]) == k && !storage_kept(p[i], a, b);
                    if i < q.len() {
                        assert(q[i] == p[i]);
                    }
                }
                if unkept_keys(q, a, b).contains(k) {
                    let i = choose|i: int|
                        0 <= i < q.len() && #[trigger] skey(q[i]) == k && !storage_kept(q[i], a, b);
                    assert(q[i] == p[i]);
                }
                if k == skey(s) {
                    assert(skey(p[p.len() - 1]) == k);
                }
            }
            assert(unkept_keys(p, a, b) =~= unkept_keys(q, a, b).insert(skey(s)));
            assert(st.storages.union(unkept_keys(q, a, b)).insert(skey(s)) =~= st.storages.union(
                unkept_keys(p, a, b),
            ));
        }
    }
}

proof fn lemma_fresh_names_step(p: Seq<VolumeView>, other: Seq<VolumeView>)
    requires
        p.len() > 0,
    ensures
        other.contains(p.last()) ==> fresh_names(p, other) == fresh_names(p.drop_last(), other),
        !other.contains(p.last()) ==> fresh_names(p, other) == fresh_names(
            p.drop_last(),
            other,
        ).insert(p.last().name),
{
    let q = p.drop_last();
    let v = p.last();
    assert forall|n| #[trigger] fresh_names(p, other).contains(n) == (fresh_names(q, other).contains(
        n,
    ) || (!other.contains(v) && n == v.name)) by {
        if fresh_names(p, other).contains(n) {
            let i = choose|i: int| 0 <= i < p.len() && #[trigger] p[i].name == n && !other.contains(p[i]);
            if i < q.len() {
                assert(q[i] == p[i]);
            }
        }
        if fresh_names(q, other).contains(n) {
            let i = choose|i: int| 0 <= i < q.len() && #[trigger] q[i].name == n && !other.contains(q[i]);
            assert(q[i] == p[i]);
        }
        if !other.contains(v) && n == v.name {
            assert(p[p.len() - 1].name == n);
        }
    }
    if other.contains(v) {
        assert(fresh_names(p, other) =~= fresh_names(q, other));
    } else {
        assert(fresh_names(p, other) =~= fresh_names(q, other).insert(v.name));
    }
}

proof fn lemma_delete_volumes(st: NameState, p: Seq<VolumeView>, other: Seq<VolumeView>)
    ensures
        apply_all(st, volume_diffs(p, other, false)) == (NameState {
            volumes: st.volumes.difference(fresh_names(p, other)),
            storages: Set::new(
                |k: (Seq<char>, Seq<char>)|
                    st.storages.contains(k) && !fresh_names(p, other).contains(k.0),
            ),
        }),
    decreases p.len(),
{
    if p.len() == 0 {
        assert(st.volumes.difference(fresh_names(p, other)) =~= st.volumes);
        assert(Set::new(
            |k: (Seq<char>, Seq<char>)|
                st.storages.contains(k) && !fresh_names(p, other).contains(k.0),
        ) =~= st.storages);
    } else {
        let q = p.drop_last();
        let v = p.last();
        lemma_delete_volumes(st, q, other);
        lemma_fresh_names_step(p, other);
        if !other.contains(v) {
            assert(volume_diffs(p, other, false).drop_last() == volume_diffs(q, other, false));
            assert(st.volumes.difference(fresh_names(q, other)).remove(v.name) =~= st.volumes.difference(
                fresh_names(p, other),
            ));
            assert(Set::new(
                |k: (Seq<char>, Seq<char>)|
                    Set::new(
                        |k: (Seq<char>, Seq<char>)|
                            st.storages.contains(k) && !fresh_names(q, other).contains(k.0),
                    ).contains(k) && k.0 != v.name,
            ) =~= Set::new(
                |k: (Seq<char>, Seq<char>)|
                    st.storages.contains(k) && !fresh_names(p, other).contains(k.0),
            ));
        } else {
            assert(Set::new(
                |k: (Seq<char>, Seq<char>)|
                    st.storages.contains(k) && !fresh_names(q, other).contains(k.0),
            ) =~= Set::new(
                |k: (Seq<char>, Seq<char>)|
                    st.storages.contains(k) && !fresh_names(p, other).contains(k.0),
            ));
        }
    }
}

proof fn lemma_add_volumes(st: NameState, p: Seq<VolumeView>, other: Seq<VolumeView>)
    ensures
        apply_all(st, volume_diffs(p, other, true)) == (NameState {
            volumes: st.volumes.union(fresh_names(p, other)),
            storages: st.storages,
        }),
    decreases p.len(),
{
    if p.len() == 0 {
        assert(st.volumes.union(fresh_names(p, other)) =~= st.volumes);
    } else {
        let q = p.drop_last();
        let v = p.last();
        lemma_add_volumes(st, q, other);
        lemma_fresh_names_step(p, other);
        if !other.contains(v) {
            assert(volume_diffs(p, other, true).drop_last() == volume_diffs(q, other, true));
            assert(st.volumes.union(fresh_names(q, other)).insert(v.name) =~= st.volumes.union(
                fresh_names(p, other),
            ));
        }
    }
}

/// A step that the runtime carries out without refusal: no volume or storage is added
/// twice, a storage is added only on a present volume, the built-in volume stays.
pub open spec fn step_clean(st: NameState, d: DiffView) -> bool {
    match d {
        DiffView::DeleteStorage(_) => true,
        DiffView::DeleteVolume(v) => v.name != memory_name(),
        DiffView::AddVolume(v) => !st.volumes.contains(v.name),
        DiffView::AddStorage(s) => st.volumes.contains(s.volume_id) && !st.storages.contains(
            skey(s),
        ),
    }
}

/// Every step of `ds`, applied in order from `st`, is clean.
pub open spec fn steps_clean(st: NameState, ds: Seq<DiffView>) -> bool
    decreases ds.len(),
{
    if ds.len() == 0 {
        true
    } else {
        steps_clean(st, ds.drop_last()) && step_clean(apply_all(st, ds.drop_last()), ds.last())
    }
}

proof fn lemma_clean_concat(st: NameState, x: Seq<DiffView>, y: Seq<DiffView>)
    ensures
        steps_clean(st, x + y) == (steps_clean(st, x) && steps_clean(apply_all(st, x), y)),
    decreases y.len(),
{
    if y.len() == 0 {
        assert(x + y =~= x);
    } else {
        assert((x + y).drop_last() =~= x + y.drop_last());
        assert((x + y).last() == y.last());
        lemma_clean_concat(st, x, y.drop_last());
        lemma_apply_concat(st, x, y.drop_last());
    }
}

proof fn lemma_delete_storages_clean(st: NameState, p: Seq<StorageView>, a: ConfigView, b: ConfigView)
    ensures
        steps_clean(st, storage_diffs(p, a, b, false)),
    decreases p.len(),
{
    if p.len() > 0 {
        let q = p.drop_last();
        lemma_delete_storages_clean(st, q, a, b);
        if !storage_kept(p.last(), a, b) {
            assert(storage_diffs(p, a, b, false).drop_last() =~= storage_diffs(q, a, b, false));
        }
    }
}

proof fn lemma_delete_volumes_clean(st: NameState, p: Seq<VolumeView>, other: Seq<VolumeView>)
    requires
        forall|i: int| 0 <= i < p.len() ==> #[trigger] p[i].name != memory_name(),
    ensures
        steps_clean(st, volume_diffs(p, other, false)),
    decreases p.len(),
{
    if p.len() > 0 {
        let q = p.drop_last();
        assert forall|i: int| 0 <= i < q.len() implies #[trigger] q[i].name != memory_name() by {
            assert(q[i] == p[i]);
        }
        assert(p[p.len() - 1].name != memory_name());
        lemma_delete_volumes_clean(st, q, other);
        if !other.contains(p.last()) {
            assert(volume_diffs(p, other, false).drop_last() =~= volume_diffs(q, other, false));
        }
    }
}

proof fn lemma_add_volumes_clean(st: NameState, p: Seq<VolumeView>, other: Seq<VolumeView>)
    requires
        forall|i: int|
            0 <= i < p.len() && !other.contains(p[i]) ==> !st.volumes.contains(#[trigger] p[i].name),
        forall|i: int, j: int| 0 <= i < p.len() && 0 <= j < p.len() && i != j ==> p[i].name != p[j].name,
    ensures
        steps_clean(st, volume_diffs(p, other, true)),
    decreases p.len(),
{
    if p.len() > 0 {
        let q = p.drop_last();
        let v = p.last();
        assert forall|i: int|
            0 <= i < q.len() && !other.contains(q[i]) implies !st.volumes.contains(#[trigger] q[i].name) by {
            assert(q[i] == p[i]);
        }
        assert forall|i: int, j: int| 0 <= i < q.len() && 0 <= j < q.len() && i != j implies q[i].name
            != q[j].name by {
            assert(q[i] == p[i]);
            assert(q[j] == p[j]);
        }
        lemma_add_volumes_clean(st, q, other);
        lemma_add_volumes(st, q, other);
        if !other.contains(v) {
            assert(volume_diffs(p, other, true).drop_last() == volume_diffs(q, other, true));
            assert(!st.volumes.contains(p[p.len() - 1].name));
            if fresh_names(q, other).contains(v.name) {
                let i = choose|i: int| 0 <= i < q.len() && #[trigger] q[i].name == v.name && !other.contains(q[i]);
                assert(q[i] == p[i]);
                assert(p[i].name == p[p.len() - 1].name);
            }
        }
    }
}

proof fn lemma_add_storages_clean(st: NameState, p: Seq<StorageView>, a: ConfigView, b: ConfigView)
    requires
        forall|i: int| 0 <= i < p.len() ==> st.volumes.contains(#[trigger] p[i].volume_id),
        forall|i: int|
            0 <= i < p.len() && !storage_kept(p[i], a, b) ==> !st.storages.contains(
                #[trigger] skey(p[i]),
            ),
        forall|i: int, j: int| 0 <= i < p.len() && 0 <= j < p.len() && i != j ==> skey(p[i]) != skey(p[j]),
    ensures
        steps_clean(st, storage_diffs(p, a, b, true)),
    decreases p.len(),
{
    if p.len() > 0 {
        let q = p.drop_last();
        let s = p.last();
        assert forall|i: int| 0 <= i < q.len() implies st.volumes.contains(#[trigger] q[i].volume_id) by {
            assert(q[i] == p[i]);
        }
        assert forall|i: int|
            0 <= i < q.len() && !storage_kept(q[i], a, b) implies !st.storages.contains(
            #[trigger] skey(q[i]),
        ) by {
            assert(q[i] == p[i]);
        }
        assert forall|i: int, j: int| 0 <= i < q.len() && 0 <= j < q.len() && i != j implies skey(q[i])
            != skey(q[j]) by {
            assert(q[i] == p[i]);
            assert(q[j] == p[j]);
        }
        lemma_add_storages_clean(st, q, a, b);
        lemma_add_storages(st, q, a, b);
        if !storage_kept(s, a, b) {
            assert(storage_diffs(p, a, b, true).drop_last() == storage_diffs(q, a, b, true));
            assert(st.volumes.contains(p[p.len() - 1].volume_id));
            assert(!st.storages.contains(skey(p[p.len() - 1])));
            if unkept_keys(q, a, b).contains(skey(s)) {
                let i = choose|i: int|
                    0 <= i < q.len() && #[trigger] skey(q[i]) == skey(s) && !storage_kept(q[i], a, b);
                assert(q[i] == p[i]);
                assert(skey(p[i]) == skey(p[p.len() - 1]));
            }
        }
    }
}

/// Applying the steps from `a` to `b` to a runtime that shows the names of `a` leaves
/// one that shows the names of `b`, and every step on the way is clean: none is refused.
pub proof fn lemma_reconcile_reaches_target(a: ConfigView, b: ConfigView)
    requires
        valid_config(a),
        valid_config(b),
    ensures
        apply_all(config_state(a), config_diffs(a, b)) == config_state(b),
        steps_clean(config_state(a), config_diffs(a, b)),
{
    let st0 = config_state(a);
    let d1 = storage_diffs(a.storages, a, b, false);
    let d2 = volume_diffs(a.volumes, b.volumes, false);
    let d3 = volume_diffs(b.volumes, a.volumes, true);
    let d4 = storage_diffs(b.storages, a, b, true);
    lemma_apply_concat(st0, d1 + d2 + d3, d4);
    lemma_apply_concat(st0, d1 + d2, d3);
    lemma_apply_concat(st0, d1, d2);
    // Storage deletions leave the kept storages.
    lemma_delete_storages(st0, a.storages, a, b);
    let st1 = apply_all(st0, d1);
    let kept = st0.storages.difference(unkept_keys(a.storages, a, b));
    assert(st1.storages == kept);
    // Volume deletions leave every kept storage, whose volume is unchanged.
    lemma_delete_volumes(st1, a.volumes, b.volumes);
    let st2 = apply_all(st1, d2);
    let gone = fresh_names(a.volumes, b.volumes);
    assert forall|k| #[trigger] kept.contains(k) implies !gone.contains(k.0) by {
        let i = choose|i: int| 0 <= i < a.storages.len() && #[trigger] skey(a.storages[i]) == k;
        if !storage_kept(a.storages[i], a, b) {
            assert(unkept_keys(a.storages, a, b).contains(k));
        }
        if gone.contains(k.0) {
            let j = choose|j: int|
                0 <= j < a.volumes.len() && #[trigger] a.volumes[j].name == k.0 && !b.volumes.contains(
                    a.volumes[j],
                );
        }
    }
    assert(st2.storages =~= kept);
    // Volume additions bring the volume names of `b`.
    lemma_add_volumes(st2, b.volumes, a.volumes);
    let st3 = apply_all(st2, d3);
    let fresh = fresh_names(b.volumes, a.volumes);
    assert forall|n| #[trigger] st3.volumes.contains(n) == config_state(b).volumes.contains(n) by {
        if n == memory_name() {
            if gone.contains(n) {
                let j = choose|j: int|
                    0 <= j < a.volumes.len() && #[trigger] a.volumes[j].name == n && !b.volumes.contains(
                        a.volumes[j],
                    );
            }
        } else {
            if volume_names(a.volumes).contains(n) && !gone.contains(n) {
                let j = choose|j: int| 0 <= j < a.volumes.len() && #[trigger] a.volumes[j].name == n;
                assert(b.volumes.contains(a.volumes[j]));
                let m = choose|m: int| 0 <= m < b.volumes.len() && b.volumes[m] == a.volumes[j];
                assert(b.volumes[m].name == n);
            }
            if fresh.contains(n) {
                let j = choose|j: int|
                    0 <= j < b.volumes.len() && #[trigger] b.volumes[j].name == n && !a.volumes.contains(
                        b.volumes[j],
                    );
            }
            if volume_names(b.volumes).contains(n) {
                let j = choose|j: int| 0 <= j < b.volumes.len() && #[trigger] b.volumes[j].name == n;
                if a.volumes.contains(b.volumes[j]) {
                    let m = choose|m: int| 0 <= m < a.volumes.len() && a.volumes[m] == b.volumes[j];
                    assert(a.volumes[m].name == n);
                    if gone.contains(n) {
                        let g = choose|g: int|
                            0 <= g < a.volumes.len() && #[trigger] a.volumes[g].name == n
                                && !b.volumes.contains(a.volumes[g]);
                        assert(g == m);
                    }
                } else {
                    assert(fresh.contains(n));
                }
            }
        }
    }
    assert(st3.volumes =~= config_state(b).volumes);
    // Storage additions bring the storages of `b` that were not kept.
    assert forall|i: int| 0 <= i < b.storages.len() implies st3.volumes.contains(
        #[trigger] b.storages[i].volume_id,
    ) by {
        assert(config_state(b).volumes.contains(b.storages[i].volume_id));
    }
    lemma_add_storages(st3, b.storages, a, b);
    let st4 = apply_all(st3, d4);
    assert forall|k| #[trigger] st4.storages.contains(k) == storage_keys(b.storages).contains(k) by {
        if kept.contains(k) {
            let i = choose|i: int| 0 <= i < a.storages.len() && #[trigger] skey(a.storages[i]) == k;
            if !storage_kept(a.storages[i], a, b) {
                assert(unkept_keys(a.storages, a, b).contains(k));
            }
            let m = choose|m: int| 0 <= m < b.storages.len() && b.storages[m] == a.storages[i];
            assert(skey(b.storages[m]) == k);
        }
        if unkept_keys(b.storages, a, b).contains(k) {
            let i = choose|i: int|
                0 <= i < b.storages.len() && #[trigger] skey(b.storages[i]) == k && !storage_kept(
                    b.storages[i],
                    a,
                    b,
                );
        }
        if storage_keys(b.storages).contains(k) {
            let i = choose|i: int| 0 <= i < b.storages.len() && #[trigger] skey(b.storages[i]) == k;
            if storage_kept(b.storages[i], a, b) {
                let m = choose|m: int| 0 <= m < a.storages.len() && a.storages[m] == b.storages[i];
                assert(skey(a.storages[m]) == k);
                if unkept_keys(a.storages, a, b).contains(k) {
                    let g = choose|g: int|
                        0 <= g < a.storages.len() && #[trigger] skey(a.storages[g]) == k
                            && !storage_kept(a.storages[g], a, b);
                    assert(g == m);
                }
            } else {
                assert(unkept_keys(b.storages, a, b).contains(k));
            }
        }
    }
    assert(st4.storages =~= config_state(b).storages);
    // Every step is clean.
    lemma_clean_concat(st0, d1 + d2 + d3, d4);
    lemma_clean_concat(st0, d1 + d2, d3);
    lemma_clean_concat(st0, d1, d2);
    lemma_delete_storages_clean(st0, a.storages, a, b);
    lemma_delete_volumes_clean(st1, a.volumes, b.volumes);
    assert forall|i: int|
        0 <= i < b.volumes.len() && !a.volumes.contains(b.volumes[i]) implies !st2.volumes.contains(
        #[trigger] b.volumes[i].name,
    ) by {
        let n = b.volumes[i].name;
        if volume_names(a.volumes).contains(n) && !gone.contains(n) {
            let j = choose|j: int| 0 <= j < a.volumes.len() && #[trigger] a.volumes[j].name == n;
            assert(b.volumes.contains(a.volumes[j]));
            let m = choose|m: int| 0 <= m < b.volumes.len() && b.volumes[m] == a.volumes[j];
            assert(a.volumes.contains(b.volumes[m]));
            assert(m != i);
        }
    }
    lemma_add_volumes_clean(st2, b.volumes, a.volumes);
    assert forall|i: int|
        0 <= i < b.storages.len() && !storage_kept(b.storages[i], a, b) implies !st3.storages.contains(
        #[trigger] skey(b.storages[i]),
    ) by {
        let k = skey(b.storages[i]);
        if kept.contains(k) {
            let j = choose|j: int| 0 <= j < a.storages.len() && #[trigger] skey(a.storages[j]) == k;
            if !storage_kept(a.storages[j], a, b) {
                assert(unkept_keys(a.storages, a, b).contains(k));
            }
            let m = choose|m: int| 0 <= m < b.storages.len() && b.storages[m] == a.storages[j];
            assert(m != i);
        }
    }
    lemma_add_storages_clean(st3, b.storages, a, b);
}

/// Reconciling from `a` to `b` and then back from `b` to `a` restores the names of `a`,
/// with no step refused in either direction.
pub proof fn lemma_reconcile_round_trip(a: ConfigView, b: ConfigView)
    requires
        valid_config(a),
        valid_config(b),
    ensures
        apply_all(apply_all(config_state(a), config_diffs(a, b)), config_diffs(b, a))
            == config_state(a),
        steps_clean(config_state(a), config_diffs(a, b)),
        steps_clean(apply_all(config_state(a), config_diffs(a, b)), config_diffs(b, a)),
{
    lemma_reconcile_reaches_target(a, b);
    lemma_reconcile_reaches_target(b, a);
}


/// Every storage name is paired with a volume name that is present.
pub open spec fn storages_on_volumes(st: NameState) -> bool {
    forall|k: (Seq<char>, Seq<char>)| #[trigger] st.storages.contains(k) ==> st.volumes.contains(k.0)
}

/// No sequence of steps leaves a storage whose volume is absent.
pub proof fn lemma_steps_keep_storages_on_volumes(st: NameState, ds: Seq<DiffView>)
    requires
        storages_on_volumes(st),
    ensures
        storages_on_volumes(apply_all(st, ds)),
    decreases ds.len(),
{
    if ds.len() > 0 {
        lemma_steps_keep_storages_on_volumes(st, ds.drop_last());
    }
}

/// The names that a runtime shows.
pub open spec fn runtime_names(rt: StorageRuntime) -> NameState {
    NameState {
        volumes: Set::new(|n: Seq<char>| rt.has_volume(n)),
        storages: Set::new(|k: (Seq<char>, Seq<char>)| rt.has_storage(k.0, k.1)),
    }
}

/// `kill_volume` changes the names as a volume deletion step says.
pub proof fn lemma_kill_volume_step(
    before: StorageRuntime,
    after: StorageRuntime,
    v: VolumeView,
    ws: Seq<u64>,
)
    requires
        volume_removed(before, after, v.name, ws),
    ensures
        runtime_names(after) == apply_diff(runtime_names(before), DiffView::DeleteVolume(v)),
{
    let want = apply_diff(runtime_names(before), DiffView::DeleteVolume(v));
    assert(runtime_names(after).volumes =~= want.volumes);
    assert(runtime_names(after).storages =~= want.storages);
}

/// A successful `add_volume` changes the names as a volume addition step says.
pub proof fn lemma_add_volume_step(before: StorageRuntime, after: StorageRuntime, v: VolumeView)
    requires
        after.volumes@.len() == before.volumes@.len() + 1,
        after.volumes@.drop_last() == before.volumes@,
        after.volumes@.last().name@ == v.name,
        after.storages == before.storages,
    ensures
        runtime_names(after) == apply_diff(runtime_names(before), DiffView::AddVolume(v)),
{
    let want = apply_diff(runtime_names(before), DiffView::AddVolume(v));
    assert forall|n| #[trigger] runtime_names(after).volumes.contains(n) == want.volumes.contains(n) by {
        if after.has_volume(n) {
            let j = choose|j: int| 0 <= j < after.volumes@.len() && #[trigger] after.volumes@[j].name@ == n;
            if j < before.volumes@.len() {
                assert(after.volumes@.drop_last()[j] == after.volumes@[j]);
            }
        }
        if before.has_volume(n) {
            let j = choose|j: int| 0 <= j < before.volumes@.len() && #[trigger] before.volumes@[j].name@ == n;
            assert(after.volumes@.drop_last()[j] == after.volumes@[j]);
        }
        if n == v.name {
            assert(after.volumes@[before.volumes@.len() as int].name@ == n);
        }
    }
    assert(runtime_names(after).volumes =~= want.volumes);
    assert(runtime_names(after).storages =~= want.storages);
}

/// A successful `add_storage` changes the names as a storage addition step says.
pub proof fn lemma_add_storage_step(before: StorageRuntime, after: StorageRuntime, s: StorageView)
    requires
        before.has_volume(s.volume_id),
        after.storages@.len() == before.storages@.len() + 1,
        after.storages@.drop_last() == before.storages@,
        after.storages@.last().volume_id@ == s.volume_id,
        after.storages@.last().name@ == s.name,
        after.volumes == before.volumes,
    ensures
        runtime_names(after) == apply_diff(runtime_names(before), DiffView::AddStorage(s)),
{
    let want = apply_diff(runtime_names(before), DiffView::AddStorage(s));
    assert(runtime_names(before).volumes.contains(s.volume_id));
    assert forall|n| #[trigger] runtime_names(after).volumes.contains(n) == want.volumes.contains(n) by {
        if after.has_volume(n) {
            let j = choose|j: int| 0 <= j < after.volumes@.len() && #[trigger] after.volumes@[j].name@ == n;
            assert(before.volumes@[j].name@ == n);
        }
        if before.has_volume(n) {
            let j = choose|j: int| 0 <= j < before.volumes@.len() && #[trigger] before.volumes@[j].name@ == n;
            assert(after.volumes@[j].name@ == n);
        }
    }
    assert forall|k: (Seq<char>, Seq<char>)| #[trigger] runtime_names(after).storages.contains(k)
        == want.storages.contains(k) by {
        if after.has_storage(k.0, k.1) {
            let j = choose|j: int|
                0 <= j < after.storages@.len() && #[trigger] after.storages@[j].volume_id@ == k.0
                    && after.storages@[j].name@ == k.1;
            if j < before.storages@.len() {
                assert(after.storages@.drop_last()[j] == after.storages@[j]);
            }
        }
        if before.has_storage(k.0, k.1) {
            let j = choose|j: int|
                0 <= j < before.storages@.len() && #[trigger] before.storages@[j].volume_id@ == k.0
                    && before.storages@[j].name@ == k.1;
            assert(after.storages@.drop_last()[j] == after.storages@[j]);
        }
        if k == skey(s) {
            assert(after.storages@[before.storages@.len() as int].volume_id@ == k.0);
        }
    }
    assert(runtime_names(after).volumes =~= want.volumes);
    assert(runtime_names(after).storages =~= want.storages);
}

/// `kill_storage` changes the names as a storage deletion step says, whether or not the
/// storage was registered.
pub proof fn lemma_kill_storage_step(
    before: StorageRuntime,
    after: StorageRuntime,
    s: StorageView,
    r: Option<u64>,
)
    requires
        before.wf(),
        after.volumes == before.volumes,
        r is None ==> !before.has_storage(s.volume_id, s.name) && after == before,
        r matches Some(w) ==> storage_removed(before, after, s.volume_id, s.name, w),
    ensures
        runtime_names(after) == apply_diff(runtime_names(before), DiffView::DeleteStorage(s)),
{
    let want = apply_diff(runtime_names(before), DiffView::DeleteStorage(s));
    assert forall|n| #[trigger] runtime_names(after).volumes.contains(n) == want.volumes.contains(n) by {
        if after.has_volume(n) {
            let j = choose|j: int| 0 <= j < after.volumes@.len() && #[trigger] after.volumes@[j].name@ == n;
            assert(before.volumes@[j].name@ == n);
        }
        if before.has_volume(n) {
            let j = choose|j: int| 0 <= j < before.volumes@.len() && #[trigger] before.volumes@[j].name@ == n;
            assert(after.volumes@[j].name@ == n);
        }
    }
    match r {
        None => {
            assert(!runtime_names(before).storages.contains(skey(s)));
        },
        Some(w) => {
            let at = choose|i: int|
                0 <= i < before.storages@.len() && #[trigger] before.storages@[i].worker == w
                    && before.storages@[i].volume_id@ == s.volume_id && before.storages@[i].name@
                    == s.name && after.storages@ == before.storages@.remove(i);
            assert forall|k: (Seq<char>, Seq<char>)| #[trigger] runtime_names(after).storages.contains(k)
                == want.storages.contains(k) by {
                if after.has_storage(k.0, k.1) {
                    let j = choose|j: int|
                        0 <= j < after.storages@.len() && #[trigger] after.storages@[j].volume_id@
                            == k.0 && after.storages@[j].name@ == k.1;
                    let pj = if j < at { j } else { j + 1 };
                    assert(after.storages@[j] == before.storages@[pj]);
                }
                if before.has_storage(k.0, k.1) && k != skey(s) {
                    let j = choose|j: int|
                        0 <= j < before.storages@.len() && #[trigger] before.storages@[j].volume_id@
                            == k.0 && before.storages@[j].name@ == k.1;
                    if j < at {
                        assert(after.storages@[j] == before.storages@[j]);
                    } else {
                        assert(j != at);
                        assert(after.storages@[j - 1] == before.storages@[j]);
                    }
                }
            }
        },
    }
    assert(runtime_names(after).volumes =~= want.volumes);
    assert(runtime_names(after).storages =~= want.storages);
}


/// A clean volume addition meets a runtime that does not hold that volume, so
/// `add_volume` succeeds once the backend is created.
pub proof fn lemma_clean_add_volume_accepted(rt: StorageRuntime, v: VolumeView)
    requires
        step_clean(runtime_names(rt), DiffView::AddVolume(v)),
    ensures
        !rt.has_volume(v.name),
{
}

/// A clean storage addition meets no refusal, while worker numbers are left.
pub proof fn lemma_clean_add_storage_accepted(rt: StorageRuntime, s: StorageConfig)
    requires
        step_clean(runtime_names(rt), DiffView::AddStorage(s@)),
        rt.next_worker < u64::MAX,
    ensures
        rt.storage_refusal(s) is None,
{
    assert(runtime_names(rt).volumes.contains(s.volume_id@));
    assert(!runtime_names(rt).storages.contains((s.volume_id@, s.name@)));
}

} // verus!

use vstd::prelude::*;

use crate::diff::{diff_unchanged, diff_view, HostDiff, HostDiffView};
use crate::host::{hosts_view, Host, HostView};
use crate::matcher::{has_match, hosts_match, same_host};

verus! {

/// The outcome of one host's reconciliation between two snapshots.
pub enum HostDelta {
    Changed(HostDiff),
    Unchanged(Host),
    Gone(Host),
    New(Host),
}

/// Mathematical model of a `HostDelta`.
pub enum DeltaView {
    Changed(HostDiffView),
    Unchanged(HostView),
    Gone(HostView),
    New(HostView),
}

impl View for HostDelta {
    type V = DeltaView;

    open spec fn view(&self) -> DeltaView {
        match self {
            HostDelta::Changed(d) => DeltaView::Changed(d@),
            HostDelta::Unchanged(h) => DeltaView::Unchanged(h@),
            HostDelta::Gone(h) => DeltaView::Gone(h@),
            HostDelta::New(h) => DeltaView::New(h@),
        }
    }
}

/// The models of a sequence of deltas.
pub open spec fn deltas_view(s: Seq<HostDelta>) -> Seq<DeltaView> {
    s.map_values(|d: HostDelta| d@)
}

/// The `Gone` deltas: one for each host of the old snapshot that matches no
/// host of the new one, in old-snapshot order.
pub open spec fn gone_part(old: Seq<HostView>, new: Seq<HostView>) -> Seq<DeltaView>
    decreases old.len(),
{
    if old.len() == 0 {
        Seq::empty()
    } else {
        let rest = gone_part(old.drop_last(), new);
        if !has_match(old.last(), new) {
            rest.push(DeltaView::Gone(old.last()))
        } else {
            rest
        }
    }
}

/// The `New` deltas: one for each host of the new snapshot that matches no
/// host of the old one, in new-snapshot order.
pub open spec fn new_part(new: Seq<HostView>, old: Seq<HostView>) -> Seq<DeltaView>
    decreases new.len(),
{
    if new.len() == 0 {
        Seq::empty()
    } else {
        let rest = new_part(new.drop_last(), old);
        if !has_match(new.last(), old) {
            rest.push(DeltaView::New(new.last()))
        } else {
            rest
        }
    }
}

/// The hosts of the new snapshot that do match some old host, in
/// new-snapshot order.
pub open spec fn matched_hosts(new: Seq<HostView>, old: Seq<HostView>) -> Seq<HostView>
    decreases new.len(),
{
    if new.len() == 0 {
        Seq::empty()
    } else {
        let rest = matched_hosts(new.drop_last(), old);
        if has_match(new.last(), old) {
            rest.push(new.last())
        } else {
            rest
        }
    }
}

/// The position of the first host of `old` that matches `h`.
pub open spec fn first_match_idx(old: Seq<HostView>, h: HostView) -> int
    decreases old.len(),
{
    if old.len() == 0 {
        0
    } else if hosts_match(h, old[0]) {
        0
    } else {
        1 + first_match_idx(old.drop_first(), h)
    }
}

/// The delta of a new host that matches some old host: its diff against the
/// first matching old host; `Unchanged` when that diff is empty, `Changed`
/// otherwise.
pub open spec fn pair_delta(old: Seq<HostView>, h: HostView) -> DeltaView
    recommends
        has_match(h, old),
{
    let d = diff_view(old[first_match_idx(old, h)], h);
    if diff_unchanged(d) {
        DeltaView::Unchanged(h)
    } else {
        DeltaView::Changed(d)
    }
}

/// The `Changed`/`Unchanged` deltas of the matched new hosts, in
/// new-snapshot order.
pub open spec fn pairs_part(old: Seq<HostView>, matched: Seq<HostView>) -> Seq<DeltaView>
    decreases matched.len(),
{
    if matched.len() == 0 {
        Seq::empty()
    } else {
        pairs_part(old, matched.drop_last()).push(pair_delta(old, matched.last()))
    }
}

/// The whole reconciliation: all `Gone` deltas, then all `New` deltas, then
/// one `Changed` or `Unchanged` delta per matched new host.
pub open spec fn reconcile_view(old: Seq<HostView>, new: Seq<HostView>) -> Seq<DeltaView> {
    gone_part(old, new) + new_part(new, old) + pairs_part(old, matched_hosts(new, old))
}

/// `first_match_idx` is sound when a match exists: it lands on a matching
/// host and everything before it does not match.
pub proof fn lemma_first_match_idx(old: Seq<HostView>, h: HostView)
    requires
        has_match(h, old),
    ensures
        0 <= first_match_idx(old, h) < old.len(),
        hosts_match(h, old[first_match_idx(old, h)]),
        forall|j: int| 0 <= j < first_match_idx(old, h) ==> !hosts_match(h, #[trigger] old[j]),
    decreases old.len(),
{
    if hosts_match(h, old[0]) {
    } else {
        let k = choose|k: int| 0 <= k < old.len() && hosts_match(h, #[trigger] old[k]);
        assert(old.drop_first()[k - 1] == old[k]);
        assert(has_match(h, old.drop_first()));
        lemma_first_match_idx(old.drop_first(), h);
        let f = first_match_idx(old.drop_first(), h);
        assert(old[1 + f] == old.drop_first()[f]);
        assert forall|j: int| 0 <= j < 1 + f implies !hosts_match(h, #[trigger] old[j]) by {
            if j > 0 {
                assert(old[j] == old.drop_first()[j - 1]);
            }
        }
    }
}

/// If `old[k]` matches `h` and nothing before `k` does, then `k` is the
/// first match.
pub proof fn lemma_first_match_idx_is(old: Seq<HostView>, h: HostView, k: int)
    requires
        0 <= k < old.len(),
        hosts_match(h, old[k]),
        forall|j: int| 0 <= j < k ==> !hosts_match(h, #[trigger] old[j]),
    ensures
        first_match_idx(old, h) == k,
    decreases k,
{
    if k == 0 {
    } else {
        assert(!hosts_match(h, old[0]));
        assert(old.drop_first()[k - 1] == old[k]);
        assert forall|j: int| 0 <= j < k - 1 implies !hosts_match(
            h,
            #[trigger] old.drop_first()[j],
        ) by {
            assert(old.drop_first()[j] == old[j + 1]);
        }
        lemma_first_match_idx_is(old.drop_first(), h, k - 1);
    }
}

/// Every host that `matched_hosts` keeps does match some old host.
pub proof fn lemma_matched_hosts_match(new: Seq<HostView>, old: Seq<HostView>)
    ensures
        forall|k: int|
            0 <= k < matched_hosts(new, old).len() ==> has_match(
                #[trigger] matched_hosts(new, old)[k],
                old,
            ),
    decreases new.len(),
{
    if new.len() > 0 {
        lemma_matched_hosts_match(new.drop_last(), old);
        let rest = matched_hosts(new.drop_last(), old);
        let cur = matched_hosts(new, old);
        assert forall|k: int| 0 <= k < cur.len() implies has_match(#[trigger] cur[k], old) by {
            if has_match(new.last(), old) {
                assert(cur == rest.push(new.last()));
                if k < rest.len() {
                    assert(cur[k] == rest[k]);
                } else {
                    assert(cur[k] == new.last());
                }
            } else {
                assert(cur == rest);
            }
        }
    }
}

/// The pairing deltas follow the matched hosts one for one: there are as
/// many of them as matched hosts, and the delta at each position is the
/// classification of the matched host at that position.
pub proof fn lemma_pairs_part(old: Seq<HostView>, m: Seq<HostView>)
    ensures
        pairs_part(old, m).len() == m.len(),
        forall|k: int|
            0 <= k < m.len() ==> pairs_part(old, m)[k] == pair_delta(old, #[trigger] m[k]),
    decreases m.len(),
{
    if m.len() > 0 {
        lemma_pairs_part(old, m.drop_last());
        let rest = pairs_part(old, m.drop_last());
        let cur = pairs_part(old, m);
        assert(cur == rest.push(pair_delta(old, m.last())));
        assert forall|k: int| 0 <= k < m.len() implies cur[k] == pair_delta(
            old,
            #[trigger] m[k],
        ) by {
            if k < m.len() - 1 {
                assert(cur[k] == rest[k]);
                assert(m.drop_last()[k] == m[k]);
            } else {
                assert(m[k] == m.last());
            }
        }
    }
}

/// Completeness of classification, old side: going through the old snapshot
/// host by host, an unmatched host contributes exactly one `Gone` delta, at
/// its place in old-snapshot order, and a matched host contributes none;
/// the `Gone` region holds nothing else.
pub proof fn lemma_gone_complete(old: Seq<HostView>, new: Seq<HostView>)
    ensures
        forall|i: int|
            0 <= i < old.len() && !has_match(#[trigger] old[i], new) ==> gone_part(
                old.take(i + 1),
                new,
            ) == gone_part(old.take(i), new).push(DeltaView::Gone(old[i])),
        forall|i: int|
            0 <= i < old.len() && has_match(#[trigger] old[i], new) ==> gone_part(
                old.take(i + 1),
                new,
            ) == gone_part(old.take(i), new),
        forall|k: int|
            0 <= k < gone_part(old, new).len() ==> #[trigger] gone_part(old, new)[k] is Gone,
{
    assert forall|i: int| 0 <= i < old.len() && !has_match(#[trigger] old[i], new) implies
    gone_part(old.take(i + 1), new) == gone_part(old.take(i), new).push(
        DeltaView::Gone(old[i]),
    ) by {
        lemma_gone_step(old, new, i);
    }
    assert forall|i: int| 0 <= i < old.len() && has_match(#[trigger] old[i], new) implies
    gone_part(old.take(i + 1), new) == gone_part(old.take(i), new) by {
        lemma_gone_step(old, new, i);
    }
    lemma_region_kinds_gone(old, new);
}

/// Completeness of classification, new side: going through the new snapshot
/// host by host, every host goes to exactly one of the `New` deltas and the
/// matched hosts, so the two counts add up to the snapshot's size; the
/// `New` region holds nothing but `New` deltas.
pub proof fn lemma_new_complete(new: Seq<HostView>, old: Seq<HostView>)
    ensures
        forall|j: int|
            0 <= j < new.len() && !has_match(#[trigger] new[j], old) ==> new_part(
                new.take(j + 1),
                old,
            ) == new_part(new.take(j), old).push(DeltaView::New(new[j])) && matched_hosts(
                new.take(j + 1),
                old,
            ) == matched_hosts(new.take(j), old),
        forall|j: int|
            0 <= j < new.len() && has_match(#[trigger] new[j], old) ==> new_part(
                new.take(j + 1),
                old,
            ) == new_part(new.take(j), old) && matched_hosts(new.take(j + 1), old)
                == matched_hosts(new.take(j), old).push(new[j]),
        new_part(new, old).len() + matched_hosts(new, old).len() == new.len(),
        forall|k: int|
            0 <= k < new_part(new, old).len() ==> #[trigger] new_part(new, old)[k] is New,
{
    assert forall|j: int| 0 <= j < new.len() && !has_match(#[trigger] new[j], old) implies
    new_part(new.take(j + 1), old) == new_part(new.take(j), old).push(DeltaView::New(new[j]))
        && matched_hosts(new.take(j + 1), old) == matched_hosts(new.take(j), old) by {
        lemma_new_step(new, old, j);
    }
    assert forall|j: int| 0 <= j < new.len() && has_match(#[trigger] new[j], old) implies
    new_part(new.take(j + 1), old) == new_part(new.take(j), old) && matched_hosts(
        new.take(j + 1),
        old,
    ) == matched_hosts(new.take(j), old).push(new[j]) by {
        lemma_new_step(new, old, j);
    }
    lemma_partition_counts(new, old);
    lemma_region_kinds_new(new, old);
}

/// Completeness of classification, pairing side: every matched new host is
/// classified exactly once, as `Changed` or `Unchanged`, in matched order.
pub proof fn lemma_pairs_complete(old: Seq<HostView>, new: Seq<HostView>)
    ensures
        pairs_part(old, matched_hosts(new, old)).len() == matched_hosts(new, old).len(),
        forall|k: int|
            0 <= k < matched_hosts(new, old).len() ==> pairs_part(old, matched_hosts(new, old))[k]
                == pair_delta(old, #[trigger] matched_hosts(new, old)[k]),
        forall|k: int|
            0 <= k < matched_hosts(new, old).len() ==> (pairs_part(old, matched_hosts(new, old))[k]
                is Unchanged || #[trigger] pairs_part(old, matched_hosts(new, old))[k] is Changed),
{
    lemma_pairs_part(old, matched_hosts(new, old));
    let m = matched_hosts(new, old);
    assert forall|k: int| 0 <= k < m.len() implies (pairs_part(old, m)[k] is Unchanged
        || #[trigger] pairs_part(old, m)[k] is Changed) by {
        assert(pairs_part(old, m)[k] == pair_delta(old, m[k]));
        let d = diff_view(old[first_match_idx(old, m[k])], m[k]);
        if diff_unchanged(d) {
            assert(pair_delta(old, m[k]) == DeltaView::Unchanged(m[k]));
        } else {
            assert(pair_delta(old, m[k]) == DeltaView::Changed(d));
        }
    }
}

/// One step of the `Gone` pass: host `i` of the old snapshot adds exactly
/// one `Gone` delta when unmatched and none when matched.
proof fn lemma_gone_step(old: Seq<HostView>, new: Seq<HostView>, i: int)
    requires
        0 <= i < old.len(),
    ensures
        !has_match(old[i], new) ==> gone_part(old.take(i + 1), new) == gone_part(
            old.take(i),
            new,
        ).push(DeltaView::Gone(old[i])),
        has_match(old[i], new) ==> gone_part(old.take(i + 1), new) == gone_part(old.take(i), new),
{
    let cur = old.take(i + 1);
    assert(cur.drop_last() =~= old.take(i));
    assert(cur.last() == old[i]);
}

/// One step of the `New` pass: host `j` of the new snapshot goes either to
/// the `New` deltas or to the matched hosts, and to exactly one of the two.
proof fn lemma_new_step(new: Seq<HostView>, old: Seq<HostView>, j: int)
    requires
        0 <= j < new.len(),
    ensures
        !has_match(new[j], old) ==> new_part(new.take(j + 1), old) == new_part(
            new.take(j),
            old,
        ).push(DeltaView::New(new[j])) && matched_hosts(new.take(j + 1), old) == matched_hosts(
            new.take(j),
            old,
        ),
        has_match(new[j], old) ==> new_part(new.take(j + 1), old) == new_part(new.take(j), old)
            && matched_hosts(new.take(j + 1), old) == matched_hosts(new.take(j), old).push(new[j]),
{
    let cur = new.take(j + 1);
    assert(cur.drop_last() =~= new.take(j));
    assert(cur.last() == new[j]);
}

/// Every host of the new snapshot goes either to the `New` deltas or to the
/// matched hosts: the two counts add up to the snapshot's size.
pub proof fn lemma_partition_counts(new: Seq<HostView>, old: Seq<HostView>)
    ensures
        new_part(new, old).len() + matched_hosts(new, old).len() == new.len(),
    decreases new.len(),
{
    if new.len() > 0 {
        lemma_partition_counts(new.drop_last(), old);
    }
}

/// The `Gone` region holds `Gone` deltas only.
proof fn lemma_region_kinds_gone(old: Seq<HostView>, new: Seq<HostView>)
    ensures
        forall|k: int|
            0 <= k < gone_part(old, new).len() ==> #[trigger] gone_part(old, new)[k] is Gone,
    decreases old.len(),
{
    if old.len() > 0 {
        lemma_region_kinds_gone(old.drop_last(), new);
        let rest = gone_part(old.drop_last(), new);
        let cur = gone_part(old, new);
        assert forall|k: int| 0 <= k < cur.len() implies #[trigger] cur[k] is Gone by {
            if !has_match(old.last(), new) {
                assert(cur == rest.push(DeltaView::Gone(old.last())));
                if k < rest.len() {
                    assert(cur[k] == rest[k]);
                }
            } else {
                assert(cur == rest);
            }
        }
    }
}

/// The `New` region holds `New` deltas only.
proof fn lemma_region_kinds_new(new: Seq<HostView>, old: Seq<HostView>)
    ensures
        forall|k: int|
            0 <= k < new_part(new, old).len() ==> #[trigger] new_part(new, old)[k] is New,
    decreases new.len(),
{
    if new.len() > 0 {
        lemma_region_kinds_new(new.drop_last(), old);
        let rest = new_part(new.drop_last(), old);
        let cur = new_part(new, old);
        assert forall|k: int| 0 <= k < cur.len() implies #[trigger] cur[k] is New by {
            if !has_match(new.last(), old) {
                assert(cur == rest.push(DeltaView::New(new.last())));
                if k < rest.len() {
                    assert(cur[k] == rest[k]);
                }
            } else {
                assert(cur == rest);
            }
        }
    }
}

/// Diff emptiness decides the pairing: a matched new host whose diff
/// against its first matching old host has every field `None` is classified
/// `Unchanged`, never `Changed`; with any field present it is `Changed`
/// and carries that diff.
pub proof fn lemma_empty_diff_is_unchanged(old: Seq<HostView>, h: HostView)
    requires
        has_match(h, old),
    ensures
        diff_unchanged(diff_view(old[first_match_idx(old, h)], h)) ==> pair_delta(old, h)
            == DeltaView::Unchanged(h),
        !diff_unchanged(diff_view(old[first_match_idx(old, h)], h)) ==> pair_delta(old, h)
            == DeltaView::Changed(diff_view(old[first_match_idx(old, h)], h)),
{
}

/// Whether some host of `snap` matches `h`.
fn any_match(h: &Host, snap: &Vec<Host>) -> (r: bool)
    ensures
        r == has_match(h@, hosts_view(snap@)),
{
    let mut k: usize = 0;
    while k < snap.len()
        invariant
            k <= snap.len(),
            forall|j: int| 0 <= j < k ==> !hosts_match(h@, #[trigger] hosts_view(snap@)[j]),
        decreases snap.len() - k,
    {
        if same_host(h, &snap[k]) {
            assert(hosts_match(h@, hosts_view(snap@)[k as int]));
            return true;
        }
        k = k + 1;
    }
    false
}

/// The position of the first old host that matches `h`.
fn find_first_match(h: &Host, old: &Vec<Host>) -> (r: usize)
    requires
        has_match(h@, hosts_view(old@)),
    ensures
        r < old@.len(),
        r as int == first_match_idx(hosts_view(old@), h@),
        hosts_match(h@, hosts_view(old@)[r as int]),
{
    let mut k: usize = 0;
    while k < old.len()
        invariant
            k <= old.len(),
            forall|j: int| 0 <= j < k ==> !hosts_match(h@, #[trigger] hosts_view(old@)[j]),
        decreases old.len() - k,
    {
        if same_host(h, &old[k]) {
            proof {
                assert(hosts_match(h@, hosts_view(old@)[k as int]));
                lemma_first_match_idx_is(hosts_view(old@), h@, k as int);
            }
            return k;
        }
        k = k + 1;
    }
    proof {
        assert(false);
    }
    0
}

impl HostDelta {
    /// Reconcile two snapshots: report the old hosts that are gone, the new
    /// hosts that appeared, and for every host present in both a `Changed`
    /// delta with its diff against the first matching old host — or
    /// `Unchanged` when that diff is empty.
    pub fn from_scans(old: &Vec<Host>, new: &Vec<Host>) -> (out: Vec<HostDelta>)
        ensures
            deltas_view(out@) == reconcile_view(hosts_view(old@), hosts_view(new@)),
    {
        let ghost oldv = hosts_view(old@);
        let ghost newv = hosts_view(new@);
        let mut out: Vec<HostDelta> = Vec::new();

        // Old hosts with no counterpart in the new snapshot are gone.
        let mut i: usize = 0;
        while i < old.len()
            invariant
                i <= old.len(),
                oldv == hosts_view(old@),
                newv == hosts_view(new@),
                deltas_view(out@) == gone_part(oldv.take(i as int), newv),
            decreases old.len() - i,
        {
            let ghost pre = oldv.take(i as int);
            let ghost out_pre = deltas_view(out@);
            assert(oldv[i as int] == old@[i as int]@);
            if !any_match(&old[i], new) {
                out.push(HostDelta::Gone(old[i].duplicate()));
                assert(deltas_view(out@) =~= out_pre.push(DeltaView::Gone(oldv[i as int])));
            }
            i = i + 1;
            proof {
                let cur = oldv.take(i as int);
                assert(cur.drop_last() =~= pre);
                assert(cur.last() == oldv[i - 1]);
            }
        }
        proof {
            assert(oldv.take(oldv.len() as int) =~= oldv);
        }

        // New hosts with no counterpart in the old snapshot appear as new;
        // the rest remain for pairing.
        let mut remaining: Vec<Host> = Vec::new();
        let mut j: usize = 0;
        while j < new.len()
            invariant
                j <= new.len(),
                oldv == hosts_view(old@),
                newv == hosts_view(new@),
                deltas_view(out@) == gone_part(oldv, newv) + new_part(newv.take(j as int), oldv),
                hosts_view(remaining@) == matched_hosts(newv.take(j as int), oldv),
            decreases new.len() - j,
        {
            let ghost pre = newv.take(j as int);
            let ghost out_pre = deltas_view(out@);
            let ghost rem_pre = hosts_view(remaining@);
            assert(newv[j as int] == new@[j as int]@);
            if any_match(&new[j], old) {
                remaining.push(new[j].duplicate());
                assert(hosts_view(remaining@) =~= rem_pre.push(newv[j as int]));
            } else {
                out.push(HostDelta::New(new[j].duplicate()));
                assert(deltas_view(out@) =~= out_pre.push(DeltaView::New(newv[j as int])));
            }
            j = j + 1;
            proof {
                let cur = newv.take(j as int);
                assert(cur.drop_last() =~= pre);
                assert(cur.last() == newv[j - 1]);
            }
        }
        proof {
            assert(newv.take(newv.len() as int) =~= newv);
        }

        // Each remaining new host is paired with the first matching old
        // host and classified by its diff.
        let ghost matchedv = matched_hosts(newv, oldv);
        let mut k: usize = 0;
        while k < remaining.len()
            invariant
                k <= remaining.len(),
                oldv == hosts_view(old@),
                newv == hosts_view(new@),
                matchedv == matched_hosts(newv, oldv),
                hosts_view(remaining@) == matchedv,
                deltas_view(out@) == gone_part(oldv, newv) + new_part(newv, oldv) + pairs_part(
                    oldv,
                    matchedv.take(k as int),
                ),
            decreases remaining.len() - k,
        {
            let ghost out_pre = deltas_view(out@);
            assert(matchedv[k as int] == remaining@[k as int]@);
            proof {
                lemma_matched_hosts_match(newv, oldv);
                assert(has_match(remaining@[k as int]@, oldv));
            }
            let m = find_first_match(&remaining[k], old);
            assert(hosts_view(old@)[m as int] == old@[m as int]@);
            let d = HostDiff::from_hosts(&old[m], &remaining[k]);
            let delta = if d.is_unchanged() {
                HostDelta::Unchanged(remaining[k].duplicate())
            } else {
                HostDelta::Changed(d)
            };
            assert(delta@ == pair_delta(oldv, matchedv[k as int]));
            out.push(delta);
            assert(deltas_view(out@) =~= out_pre.push(pair_delta(oldv, matchedv[k as int])));
            k = k + 1;
            proof {
                let cur = matchedv.take(k as int);
                assert(cur.drop_last() =~= matchedv.take(k - 1));
                assert(cur.last() == matchedv[k - 1]);
            }
        }
        proof {
            assert(matchedv.take(matchedv.len() as int) =~= matchedv);
        }
        out
    }
}

} // verus!


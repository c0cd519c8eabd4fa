use vstd::multiset::Multiset;
use vstd::prelude::*;

use crate::host::{
    addresses_view, duplicate_addresses, duplicate_hostnames, duplicate_ports, hostnames_view,
    ports_view, title_view, Address, AddressView, Host, HostStatus, HostStatusView, HostView,
    Hostname, Port, PortView,
};

verus! {

// ---------------------------------------------------------------------------
// Port comparison: unordered, keyed by port number for the ordering, with
// full structural equality deciding whether the lists differ at all.
// ---------------------------------------------------------------------------

/// The key under which a port is recognised across the two sides of a diff:
/// protocol, number and status — the detected service is deliberately left
/// out, so a service-only change still counts as a difference.
pub open spec fn port_key_eq(a: PortView, b: PortView) -> bool {
    a.protocol == b.protocol && a.port_number == b.port_number && a.status == b.status
}

/// Whether `s` holds a port with the same key as `p`.
pub open spec fn has_counterpart(p: PortView, s: Seq<PortView>) -> bool {
    exists|i: int| 0 <= i < s.len() && port_key_eq(#[trigger] s[i], p)
}

/// Noise suppression: the ports of `a` that have no counterpart in `b`,
/// in their original order.
pub open spec fn suppress(a: Seq<PortView>, b: Seq<PortView>) -> Seq<PortView>
    decreases a.len(),
{
    if a.len() == 0 {
        a
    } else {
        let rest = suppress(a.drop_last(), b);
        if has_counterpart(a.last(), b) {
            rest
        } else {
            rest.push(a.last())
        }
    }
}

/// Stable insertion of a port into a list sorted by port number: the new
/// port goes after every port with a number not above its own.
pub open spec fn insert_by_number(s: Seq<PortView>, p: PortView) -> Seq<PortView>
    decreases s.len(),
{
    if s.len() == 0 {
        seq![p]
    } else if s.last().port_number <= p.port_number {
        s.push(p)
    } else {
        insert_by_number(s.drop_last(), p).push(s.last())
    }
}

/// Stable sort of a port list by port number alone; ports with equal
/// numbers keep their relative order.
pub open spec fn sort_by_number(s: Seq<PortView>) -> Seq<PortView>
    decreases s.len(),
{
    if s.len() == 0 {
        s
    } else {
        insert_by_number(sort_by_number(s.drop_last()), s.last())
    }
}

/// Whether two port lists are to be considered the same exposure: equal as
/// sequences once both are stably sorted by port number. Every field takes
/// part in this equality, the detected service included.
pub open spec fn ports_eq(l: Seq<PortView>, r: Seq<PortView>) -> bool {
    sort_by_number(l) == sort_by_number(r)
}

/// Set semantics for addresses and hostnames: order and repetition do not
/// matter, only which values occur.
pub open spec fn seq_set_eq<T>(a: Seq<T>, b: Seq<T>) -> bool {
    forall|x: T| #[trigger] a.contains(x) <==> #[trigger] b.contains(x)
}

/// Whether the ports stand in nondecreasing order of port number.
pub open spec fn sorted_by_port_number(s: Seq<PortView>) -> bool {
    forall|i: int, j: int|
        0 <= i < j < s.len() ==> #[trigger] s[i].port_number <= #[trigger] s[j].port_number
}

/// Whether no two ports of the list share a port number.
pub open spec fn distinct_port_numbers(s: Seq<PortView>) -> bool {
    forall|i: int, j: int|
        0 <= i < j < s.len() ==> #[trigger] s[i].port_number != #[trigger] s[j].port_number
}

/// Sorted insertion keeps the list sorted and adds exactly the new port.
proof fn lemma_insert_sorted(s: Seq<PortView>, p: PortView)
    requires
        sorted_by_port_number(s),
    ensures
        sorted_by_port_number(insert_by_number(s, p)),
        insert_by_number(s, p).to_multiset() == s.to_multiset().insert(p),
        insert_by_number(s, p).len() == s.len() + 1,
    decreases s.len(),
{
    broadcast use vstd::seq_lib::group_to_multiset_ensures;

    if s.len() == 0 {
        assert(seq![p] =~= Seq::<PortView>::empty().push(p));
        assert(Seq::<PortView>::empty().to_multiset() =~= Multiset::<PortView>::empty());
        assert(seq![p].to_multiset() =~= s.to_multiset().insert(p));
    } else if s.last().port_number <= p.port_number {
        let r = s.push(p);
        assert forall|i: int, j: int| 0 <= i < j < r.len() implies #[trigger] r[i].port_number
            <= #[trigger] r[j].port_number by {
            if j < s.len() {
                assert(r[i] == s[i] && r[j] == s[j]);
            } else {
                assert(r[j] == p);
                if i < s.len() - 1 {
                    assert(s[i].port_number <= s.last().port_number);
                }
            }
        }
    } else {
        let dl = s.drop_last();
        assert forall|i: int, j: int| 0 <= i < j < dl.len() implies #[trigger] dl[i].port_number
            <= #[trigger] dl[j].port_number by {
            assert(dl[i] == s[i] && dl[j] == s[j]);
        }
        lemma_insert_sorted(dl, p);
        let inner = insert_by_number(dl, p);
        let r = inner.push(s.last());
        // every port of the inner insertion stays below the detached last
        assert forall|i: int| 0 <= i < inner.len() implies #[trigger] inner[i].port_number
            <= s.last().port_number by {
            assert(inner.to_multiset().contains(inner[i]));
            if inner[i] == p {
            } else {
                assert(dl.to_multiset().contains(inner[i]));
                assert(dl.contains(inner[i]));
                let w = choose|w: int| 0 <= w < dl.len() && dl[w] == inner[i];
                assert(s[w] == dl[w]);
                if w < s.len() - 1 {
                    assert(s[w].port_number <= s.last().port_number);
                }
            }
        }
        assert forall|i: int, j: int| 0 <= i < j < r.len() implies #[trigger] r[i].port_number
            <= #[trigger] r[j].port_number by {
            if j < inner.len() {
                assert(r[i] == inner[i] && r[j] == inner[j]);
            } else {
                assert(r[j] == s.last());
                assert(r[i] == inner[i]);
            }
        }
        assert(s =~= dl.push(s.last()));
        assert(s.to_multiset() == dl.to_multiset().insert(s.last()));
        assert(r.to_multiset() == dl.to_multiset().insert(p).insert(s.last()));
        assert(dl.to_multiset().insert(p).insert(s.last()) =~= dl.to_multiset().insert(
            s.last(),
        ).insert(p));
    }
}

/// The stable sort returns a sorted permutation of its input.
pub proof fn lemma_sort_by_number_ensures(s: Seq<PortView>)
    ensures
        sorted_by_port_number(sort_by_number(s)),
        sort_by_number(s).to_multiset() == s.to_multiset(),
        sort_by_number(s).len() == s.len(),
    decreases s.len(),
{
    broadcast use vstd::seq_lib::group_to_multiset_ensures;

    if s.len() > 0 {
        lemma_sort_by_number_ensures(s.drop_last());
        lemma_insert_sorted(sort_by_number(s.drop_last()), s.last());
        assert(s =~= s.drop_last().push(s.last()));
        assert(s.to_multiset() == s.drop_last().to_multiset().insert(s.last()));
    }
}

/// Distinctness of port numbers carries over to any permutation.
proof fn lemma_distinct_permutation(x: Seq<PortView>, y: Seq<PortView>)
    requires
        x.to_multiset() == y.to_multiset(),
        distinct_port_numbers(x),
    ensures
        distinct_port_numbers(y),
{
    broadcast use vstd::seq_lib::group_to_multiset_ensures;
    broadcast use vstd::multiset::group_multiset_axioms;

    assert forall|i: int, j: int| 0 <= i < j < y.len() implies #[trigger] y[i].port_number
        != #[trigger] y[j].port_number by {
        if y[i].port_number == y[j].port_number {
            if y[i] == y[j] {
                let s0 = y.subrange(0, j);
                let s1 = y.subrange(j, y.len() as int);
                assert(y == s0 + s1);
                vstd::seq_lib::lemma_multiset_commutative(s0, s1);
                assert(s0[i] == y[i]);
                assert(s0.contains(y[i]));
                assert(s1[0] == y[j]);
                assert(s1.contains(y[i]));
                assert(y.to_multiset().count(y[i]) >= 2);
                assert(x.to_multiset().count(y[i]) >= 2);
                assert(x.contains(y[i]));
                let a = choose|a: int| 0 <= a < x.len() && x[a] == y[i];
                assert(x.remove(a).to_multiset() == x.to_multiset().remove(x[a]));
                assert(x.remove(a).to_multiset().count(y[i]) >= 1);
                assert(x.remove(a).contains(y[i]));
                let b = choose|b: int| 0 <= b < x.remove(a).len() && x.remove(a)[b] == y[i];
                x.remove_ensures(a);
                if b < a {
                    assert(x[b] == y[i]);
                    assert(x[b].port_number == x[a].port_number);
                } else {
                    assert(x[b + 1] == y[i]);
                    assert(x[a].port_number == x[b + 1].port_number);
                }
            } else {
                assert(y.contains(y[i]) && y.contains(y[j]));
                assert(x.to_multiset().count(y[i]) > 0);
                assert(x.to_multiset().count(y[j]) > 0);
                assert(x.contains(y[i]) && x.contains(y[j]));
                let a = choose|a: int| 0 <= a < x.len() && x[a] == y[i];
                let b = choose|b: int| 0 <= b < x.len() && x[b] == y[j];
                assert(a != b);
                assert(x[a].port_number == x[b].port_number);
            }
        }
    }
}

/// Two sorted lists with the same ports and no repeated port number are the
/// same list.
proof fn lemma_sorted_distinct_unique(x: Seq<PortView>, y: Seq<PortView>)
    requires
        sorted_by_port_number(x),
        sorted_by_port_number(y),
        distinct_port_numbers(x),
        x.to_multiset() == y.to_multiset(),
    ensures
        x == y,
    decreases x.len(),
{
    broadcast use vstd::seq_lib::group_to_multiset_ensures;
    broadcast use vstd::multiset::group_multiset_axioms;

    assert(x.len() == x.to_multiset().len());
    assert(y.len() == y.to_multiset().len());
    if x.len() == 0 {
        assert(x =~= y);
    } else {
        assert(y.contains(y[0]));
        assert(x.to_multiset().count(y[0]) > 0);
        assert(x.contains(y[0]));
        let i = choose|i: int| 0 <= i < x.len() && x[i] == y[0];
        assert(x.contains(x[0]));
        assert(y.to_multiset().count(x[0]) > 0);
        assert(y.contains(x[0]));
        let j = choose|j: int| 0 <= j < y.len() && y[j] == x[0];
        if i > 0 {
            assert(x[0].port_number <= x[i].port_number);
            assert(y[0].port_number <= y[j].port_number);
            assert(x[0].port_number == x[i].port_number);
            assert(false);
        }
        assert(x[0] == y[0]);
        let xr = x.drop_first();
        let yr = y.drop_first();
        assert(x.remove(0) =~= xr);
        assert(y.remove(0) =~= yr);
        assert(xr.to_multiset() == x.to_multiset().remove(x[0]));
        assert(yr.to_multiset() == y.to_multiset().remove(y[0]));
        assert forall|a: int, b: int| 0 <= a < b < xr.len() implies #[trigger] xr[a].port_number
            != #[trigger] xr[b].port_number by {
            assert(xr[a] == x[a + 1] && xr[b] == x[b + 1]);
        }
        assert forall|a: int, b: int| 0 <= a < b < xr.len() implies #[trigger] xr[a].port_number
            <= #[trigger] xr[b].port_number by {
            assert(xr[a] == x[a + 1] && xr[b] == x[b + 1]);
        }
        assert forall|a: int, b: int| 0 <= a < b < yr.len() implies #[trigger] yr[a].port_number
            <= #[trigger] yr[b].port_number by {
            assert(yr[a] == y[a + 1] && yr[b] == y[b + 1]);
        }
        lemma_sorted_distinct_unique(xr, yr);
        assert(x =~= seq![x[0]] + xr);
        assert(y =~= seq![y[0]] + yr);
        assert(x =~= y);
    }
}

/// Port-list order independence: as long as a host's ports carry pairwise
/// distinct port numbers, reordering them never changes whether the list
/// compares equal to another. (With a repeated port number the stable sort
/// keeps the original relative order, so the comparison may see it.)
pub proof fn lemma_port_order_independent(l1: Seq<PortView>, l2: Seq<PortView>, r: Seq<PortView>)
    requires
        l1.to_multiset() == l2.to_multiset(),
        distinct_port_numbers(l1),
    ensures
        ports_eq(l1, r) == ports_eq(l2, r),
{
    lemma_sort_by_number_ensures(l1);
    lemma_sort_by_number_ensures(l2);
    lemma_distinct_permutation(l1, sort_by_number(l1));
    lemma_sorted_distinct_unique(sort_by_number(l1), sort_by_number(l2));
}

/// Everything that noise suppression keeps comes from the suppressed list
/// and has no counterpart on the other side.
pub proof fn lemma_suppress_members(a: Seq<PortView>, b: Seq<PortView>)
    ensures
        forall|k: int|
            0 <= k < suppress(a, b).len() ==> a.contains(#[trigger] suppress(a, b)[k])
                && !has_counterpart(suppress(a, b)[k], b),
    decreases a.len(),
{
    if a.len() > 0 {
        lemma_suppress_members(a.drop_last(), b);
        let rest = suppress(a.drop_last(), b);
        let cur = suppress(a, b);
        assert forall|k: int| 0 <= k < cur.len() implies a.contains(#[trigger] cur[k])
            && !has_counterpart(cur[k], b) by {
            if !has_counterpart(a.last(), b) {
                assert(cur == rest.push(a.last()));
                if k < rest.len() {
                    assert(cur[k] == rest[k]);
                    assert(a.drop_last().contains(rest[k]));
                    let i = choose|i: int|
                        0 <= i < a.drop_last().len() && a.drop_last()[i] == rest[k];
                    assert(a[i] == rest[k]);
                } else {
                    assert(cur[k] == a.last());
                    assert(a.contains(a.last()));
                }
            } else {
                assert(cur == rest);
                assert(a.drop_last().contains(rest[k]));
                let i = choose|i: int| 0 <= i < a.drop_last().len() && a.drop_last()[i] == rest[k];
                assert(a[i] == rest[k]);
            }
        }
    }
}

/// Suppression leaves a list alone when nothing in it has a counterpart.
proof fn lemma_suppress_of_clean(a: Seq<PortView>, b: Seq<PortView>)
    requires
        forall|k: int| 0 <= k < a.len() ==> !has_counterpart(#[trigger] a[k], b),
    ensures
        suppress(a, b) == a,
    decreases a.len(),
{
    if a.len() > 0 {
        assert forall|k: int| 0 <= k < a.drop_last().len() implies !has_counterpart(
            #[trigger] a.drop_last()[k],
            b,
        ) by {
            assert(a.drop_last()[k] == a[k]);
        }
        lemma_suppress_of_clean(a.drop_last(), b);
        assert(!has_counterpart(a.last(), b));
        assert(a.drop_last().push(a.last()) =~= a);
    }
}

/// Noise suppression idempotence: suppressing the already suppressed pair a
/// second time changes nothing on either side.
pub proof fn lemma_suppress_idempotent(a: Seq<PortView>, b: Seq<PortView>)
    ensures
        suppress(suppress(a, b), suppress(b, a)) == suppress(a, b),
        suppress(suppress(b, a), suppress(a, b)) == suppress(b, a),
{
    let a1 = suppress(a, b);
    let b1 = suppress(b, a);
    lemma_suppress_members(a, b);
    lemma_suppress_members(b, a);
    assert forall|k: int| 0 <= k < a1.len() implies !has_counterpart(#[trigger] a1[k], b1) by {
        if has_counterpart(a1[k], b1) {
            let i = choose|i: int| 0 <= i < b1.len() && port_key_eq(#[trigger] b1[i], a1[k]);
            assert(b.contains(b1[i]));
            let j = choose|j: int| 0 <= j < b.len() && b[j] == b1[i];
            assert(port_key_eq(b[j], a1[k]));
            assert(has_counterpart(a1[k], b));
        }
    }
    lemma_suppress_of_clean(a1, b1);
    assert forall|k: int| 0 <= k < b1.len() implies !has_counterpart(#[trigger] b1[k], a1) by {
        if has_counterpart(b1[k], a1) {
            let i = choose|i: int| 0 <= i < a1.len() && port_key_eq(#[trigger] a1[i], b1[k]);
            assert(a.contains(a1[i]));
            let j = choose|j: int| 0 <= j < a.len() && a[j] == a1[i];
            assert(port_key_eq(a[j], b1[k]));
            assert(has_counterpart(b1[k], a));
        }
    }
    lemma_suppress_of_clean(b1, a1);
}

/// The unordered comparison of addresses and hostnames really is set
/// equality: two lists compare equal exactly when they hold the same set of
/// values, order and repetition aside.
pub proof fn lemma_seq_set_eq_is_set_equality<T>(a: Seq<T>, b: Seq<T>)
    ensures
        seq_set_eq(a, b) <==> a.to_set() == b.to_set(),
{
    if seq_set_eq(a, b) {
        assert(a.to_set() =~= b.to_set());
    }
    if a.to_set() == b.to_set() {
        assert forall|x: T| #[trigger] a.contains(x) <==> #[trigger] b.contains(x) by {
            assert(a.to_set().contains(x) == a.contains(x));
            assert(b.to_set().contains(x) == b.contains(x));
        }
    }
}

/// Whether `a` and `b` agree on key: protocol, port number and status.
fn port_key_same(a: &Port, b: &Port) -> (r: bool)
    ensures
        r == port_key_eq(a@, b@),
{
    a.protocol == b.protocol && a.port_number == b.port_number && a.status.state == b.status.state
        && a.status.reason.eq(&b.status.reason)
}

/// Whether `s` holds a port with the same key as `p`.
fn find_counterpart(p: &Port, s: &Vec<Port>) -> (r: bool)
    ensures
        r == has_counterpart(p@, ports_view(s@)),
{
    let mut i: usize = 0;
    while i < s.len()
        invariant
            i <= s.len(),
            forall|k: int| 0 <= k < i ==> !port_key_eq(#[trigger] ports_view(s@)[k], p@),
        decreases s.len() - i,
    {
        if port_key_same(&s[i], p) {
            assert(port_key_eq(ports_view(s@)[i as int], p@));
            return true;
        }
        i = i + 1;
    }
    false
}

/// The ports of `src` without a counterpart in `other`, freshly allocated,
/// in their original order.
fn retain_unmatched(src: &Vec<Port>, other: &Vec<Port>) -> (r: Vec<Port>)
    ensures
        ports_view(r@) == suppress(ports_view(src@), ports_view(other@)),
{
    let mut r: Vec<Port> = Vec::new();
    let mut i: usize = 0;
    while i < src.len()
        invariant
            i <= src.len(),
            ports_view(r@) == suppress(ports_view(src@).take(i as int), ports_view(other@)),
        decreases src.len() - i,
    {
        let ghost pre = ports_view(src@).take(i as int);
        if !find_counterpart(&src[i], other) {
            r.push(src[i].duplicate());
        }
        i = i + 1;
        proof {
            let cur = ports_view(src@).take(i as int);
            assert(cur.drop_last() =~= pre);
            assert(cur.last() == ports_view(src@)[i - 1]);
        }
    }
    proof {
        assert(ports_view(src@).take(src@.len() as int) =~= ports_view(src@));
    }
    r
}

/// Stable sorted insertion of one port into an already sorted vector.
fn insert_port_sorted(v: Vec<Port>, p: Port) -> (r: Vec<Port>)
    ensures
        ports_view(r@) == insert_by_number(ports_view(v@), p@),
    decreases v@.len(),
{
    let ghost orig = ports_view(v@);
    if v.len() == 0 {
        let mut r: Vec<Port> = Vec::new();
        r.push(p);
        proof {
            assert(ports_view(r@) =~= seq![p@]);
        }
        r
    } else if v[v.len() - 1].port_number <= p.port_number {
        let mut r = v;
        r.push(p);
        proof {
            assert(orig.last() == orig[orig.len() - 1]);
            assert(ports_view(r@) =~= orig.push(p@));
        }
        r
    } else {
        let mut v = v;
        let last = v.pop().unwrap();
        proof {
            assert(ports_view(v@) =~= orig.drop_last());
        }
        let mut r = insert_port_sorted(v, p);
        r.push(last);
        proof {
            assert(ports_view(r@) =~= insert_by_number(orig.drop_last(), p@).push(orig.last()));
        }
        r
    }
}

/// Stable insertion sort of a port vector by port number.
fn sort_ports(v: Vec<Port>) -> (r: Vec<Port>)
    ensures
        ports_view(r@) == sort_by_number(ports_view(v@)),
    decreases v@.len(),
{
    let ghost orig = ports_view(v@);
    if v.len() == 0 {
        v
    } else {
        let mut v = v;
        let last = v.pop().unwrap();
        proof {
            assert(ports_view(v@) =~= orig.drop_last());
        }
        let sorted = sort_ports(v);
        insert_port_sorted(sorted, last)
    }
}

/// Element-wise equality of two port vectors.
fn ports_vec_equal(a: &Vec<Port>, b: &Vec<Port>) -> (r: bool)
    ensures
        r == (ports_view(a@) == ports_view(b@)),
{
    proof {
        assert(ports_view(a@).len() == a@.len());
        assert(ports_view(b@).len() == b@.len());
    }
    if a.len() != b.len() {
        return false;
    }
    let mut i: usize = 0;
    while i < a.len()
        invariant
            i <= a.len(),
            a@.len() == b@.len(),
            forall|k: int| 0 <= k < i ==> #[trigger] ports_view(a@)[k] == ports_view(b@)[k],
        decreases a.len() - i,
    {
        if !a[i].same(&b[i]) {
            assert(ports_view(a@)[i as int] != ports_view(b@)[i as int]);
            return false;
        }
        i = i + 1;
    }
    proof {
        assert(ports_view(a@) =~= ports_view(b@));
    }
    true
}

/// Whether the two port lists describe the same exposure: sorted by port
/// number and compared field for field. Order never matters; a change in
/// status, reason or detected service does.
pub fn same_port_set(a: &Vec<Port>, b: &Vec<Port>) -> (r: bool)
    ensures
        r == ports_eq(ports_view(a@), ports_view(b@)),
{
    let sa = sort_ports(duplicate_ports(a));
    let sb = sort_ports(duplicate_ports(b));
    ports_vec_equal(&sa, &sb)
}

/// Whether `list` holds an address equal to `a`.
fn contains_address(list: &Vec<Address>, a: &Address) -> (r: bool)
    ensures
        r == addresses_view(list@).contains(a@),
{
    let mut j: usize = 0;
    while j < list.len()
        invariant
            j <= list.len(),
            forall|k: int| 0 <= k < j ==> #[trigger] addresses_view(list@)[k] != a@,
        decreases list.len() - j,
    {
        if list[j].same(a) {
            assert(addresses_view(list@)[j as int] == a@);
            return true;
        }
        j = j + 1;
    }
    proof {
        if addresses_view(list@).contains(a@) {
            let k = choose|k: int|
                0 <= k < addresses_view(list@).len() && addresses_view(list@)[k] == a@;
        }
    }
    false
}

/// Whether `list` holds a hostname equal to `h`.
fn contains_hostname(list: &Vec<Hostname>, h: &Hostname) -> (r: bool)
    ensures
        r == hostnames_view(list@).contains(h@),
{
    let mut j: usize = 0;
    while j < list.len()
        invariant
            j <= list.len(),
            forall|k: int| 0 <= k < j ==> #[trigger] hostnames_view(list@)[k] != h@,
        decreases list.len() - j,
    {
        if list[j].same(h) {
            assert(hostnames_view(list@)[j as int] == h@);
            return true;
        }
        j = j + 1;
    }
    proof {
        if hostnames_view(list@).contains(h@) {
            let k = choose|k: int|
                0 <= k < hostnames_view(list@).len() && hostnames_view(list@)[k] == h@;
        }
    }
    false
}

/// Whether every address of `a` occurs in `b`.
fn addresses_subset(a: &Vec<Address>, b: &Vec<Address>) -> (r: bool)
    ensures
        r == forall|i: int|
            0 <= i < a@.len() ==> addresses_view(b@).contains(#[trigger] addresses_view(a@)[i]),
{
    let mut i: usize = 0;
    while i < a.len()
        invariant
            i <= a.len(),
            forall|k: int|
                0 <= k < i ==> addresses_view(b@).contains(#[trigger] addresses_view(a@)[k]),
        decreases a.len() - i,
    {
        if !contains_address(b, &a[i]) {
            assert(!addresses_view(b@).contains(addresses_view(a@)[i as int]));
            return false;
        }
        i = i + 1;
    }
    true
}

/// Whether every hostname of `a` occurs in `b`.
fn hostnames_subset(a: &Vec<Hostname>, b: &Vec<Hostname>) -> (r: bool)
    ensures
        r == forall|i: int|
            0 <= i < a@.len() ==> hostnames_view(b@).contains(#[trigger] hostnames_view(a@)[i]),
{
    let mut i: usize = 0;
    while i < a.len()
        invariant
            i <= a.len(),
            forall|k: int|
                0 <= k < i ==> hostnames_view(b@).contains(#[trigger] hostnames_view(a@)[k]),
        decreases a.len() - i,
    {
        if !contains_hostname(b, &a[i]) {
            assert(!hostnames_view(b@).contains(hostnames_view(a@)[i as int]));
            return false;
        }
        i = i + 1;
    }
    true
}

/// Whether the two address lists hold the same addresses, order and
/// repetition aside.
pub fn same_address_set(a: &Vec<Address>, b: &Vec<Address>) -> (r: bool)
    ensures
        r == seq_set_eq(addresses_view(a@), addresses_view(b@)),
{
    let fwd = addresses_subset(a, b);
    let bwd = addresses_subset(b, a);
    let r = fwd && bwd;
    proof {
        let av = addresses_view(a@);
        let bv = addresses_view(b@);
        if fwd && bwd {
            assert forall|x| #[trigger] av.contains(x) implies bv.contains(x) by {
                let i = choose|i: int| 0 <= i < av.len() && av[i] == x;
            }
            assert forall|x| #[trigger] bv.contains(x) implies av.contains(x) by {
                let i = choose|i: int| 0 <= i < bv.len() && bv[i] == x;
            }
        } else if !fwd {
            let i = choose|i: int| 0 <= i < av.len() && !bv.contains(#[trigger] av[i]);
            assert(av.contains(av[i]));
        } else {
            let i = choose|i: int| 0 <= i < bv.len() && !av.contains(#[trigger] bv[i]);
            assert(bv.contains(bv[i]));
        }
    }
    r
}

/// Whether the two hostname lists hold the same names, order and
/// repetition aside.
pub fn same_hostname_set(a: &Vec<Hostname>, b: &Vec<Hostname>) -> (r: bool)
    ensures
        r == seq_set_eq(hostnames_view(a@), hostnames_view(b@)),
{
    let fwd = hostnames_subset(a, b);
    let bwd = hostnames_subset(b, a);
    let r = fwd && bwd;
    proof {
        let av = hostnames_view(a@);
        let bv = hostnames_view(b@);
        if fwd && bwd {
            assert forall|x| #[trigger] av.contains(x) implies bv.contains(x) by {
                let i = choose|i: int| 0 <= i < av.len() && av[i] == x;
            }
            assert forall|x| #[trigger] bv.contains(x) implies av.contains(x) by {
                let i = choose|i: int| 0 <= i < bv.len() && bv[i] == x;
            }
        } else if !fwd {
            let i = choose|i: int| 0 <= i < av.len() && !bv.contains(#[trigger] av[i]);
            assert(av.contains(av[i]));
        } else {
            let i = choose|i: int| 0 <= i < bv.len() && !av.contains(#[trigger] bv[i]);
            assert(bv.contains(bv[i]));
        }
    }
    r
}

// ---------------------------------------------------------------------------
// The field-level diff of two matched hosts.
// ---------------------------------------------------------------------------

/// The structural difference of two matched hosts. A field is `None` when
/// the two hosts agree on it under that field's own equality rule; a `Some`
/// field holds the old and the new value, in that order.
pub struct HostDiff {
    pub title: String,
    pub status: Option<(HostStatus, HostStatus)>,
    pub ports: Option<(Vec<Port>, Vec<Port>)>,
    pub addresses: Option<(Vec<Address>, Vec<Address>)>,
    pub hostnames: Option<(Vec<Hostname>, Vec<Hostname>)>,
}

/// Mathematical model of a `HostDiff`.
pub struct HostDiffView {
    pub title: Seq<char>,
    pub status: Option<(HostStatusView, HostStatusView)>,
    pub ports: Option<(Seq<PortView>, Seq<PortView>)>,
    pub addresses: Option<(Seq<AddressView>, Seq<AddressView>)>,
    pub hostnames: Option<(Seq<Seq<char>>, Seq<Seq<char>>)>,
}

impl View for HostDiff {
    type V = HostDiffView;

    open spec fn view(&self) -> HostDiffView {
        HostDiffView {
            title: self.title@,
            status: match self.status {
                Option::Some((ref a, ref b)) => Option::Some((a@, b@)),
                Option::None => Option::None,
            },
            ports: match self.ports {
                Option::Some((ref a, ref b)) => Option::Some((ports_view(a@), ports_view(b@))),
                Option::None => Option::None,
            },
            addresses: match self.addresses {
                Option::Some((ref a, ref b)) => Option::Some(
                    (addresses_view(a@), addresses_view(b@)),
                ),
                Option::None => Option::None,
            },
            hostnames: match self.hostnames {
                Option::Some((ref a, ref b)) => Option::Some(
                    (hostnames_view(a@), hostnames_view(b@)),
                ),
                Option::None => Option::None,
            },
        }
    }
}

/// The diff of two hosts before noise suppression: each field is `None`
/// exactly when the two hosts agree on it, and otherwise holds both full
/// values, old first.
pub open spec fn raw_diff_view(l: HostView, r: HostView) -> HostDiffView {
    HostDiffView {
        title: title_view(r),
        status: if l.status == r.status {
            Option::None
        } else {
            Option::Some((l.status, r.status))
        },
        ports: if ports_eq(l.ports, r.ports) {
            Option::None
        } else {
            Option::Some((l.ports, r.ports))
        },
        addresses: if seq_set_eq(l.addresses, r.addresses) {
            Option::None
        } else {
            Option::Some((l.addresses, r.addresses))
        },
        hostnames: if seq_set_eq(l.hostnames, r.hostnames) {
            Option::None
        } else {
            Option::Some((l.hostnames, r.hostnames))
        },
    }
}

/// Noise suppression over a whole diff: each side of a `Some` ports field
/// loses every port with a counterpart on the other side; all other fields
/// stay as they are.
pub open spec fn suppress_diff_view(d: HostDiffView) -> HostDiffView {
    HostDiffView {
        ports: match d.ports {
            Option::Some((l, r)) => Option::Some((suppress(l, r), suppress(r, l))),
            Option::None => Option::None,
        },
        ..d
    }
}

/// The diff of two hosts as `from_hosts` builds it: the raw field diff with
/// noise suppression applied to the ports.
pub open spec fn diff_view(l: HostView, r: HostView) -> HostDiffView {
    suppress_diff_view(raw_diff_view(l, r))
}

/// Whether every field of the diff is `None`.
pub open spec fn diff_unchanged(d: HostDiffView) -> bool {
    d.status is None && d.ports is None && d.addresses is None && d.hostnames is None
}

impl HostDiff {
    /// Build the field-level diff of two matched hosts: `left` is the host
    /// of the old snapshot, `right` the host of the new one, which also
    /// provides the title.
    pub fn from_hosts(left: &Host, right: &Host) -> (d: HostDiff)
        ensures
            d@ == diff_view(left@, right@),
    {
        let title = right.get_title();

        let status = if left.status.same(&right.status) {
            Option::None
        } else {
            Option::Some((left.status.duplicate(), right.status.duplicate()))
        };

        let ports = if same_port_set(&left.ports, &right.ports) {
            Option::None
        } else {
            Option::Some((duplicate_ports(&left.ports), duplicate_ports(&right.ports)))
        };

        let addresses = if same_address_set(&left.addresses, &right.addresses) {
            Option::None
        } else {
            Option::Some(
                (duplicate_addresses(&left.addresses), duplicate_addresses(&right.addresses)),
            )
        };

        let hostnames = if same_hostname_set(&left.hostnames, &right.hostnames) {
            Option::None
        } else {
            Option::Some(
                (duplicate_hostnames(&left.hostnames), duplicate_hostnames(&right.hostnames)),
            )
        };

        let mut diff = HostDiff { title, status, ports, addresses, hostnames };
        assert(diff@ == raw_diff_view(left@, right@));
        diff.remove_identical_ports();
        diff
    }

    /// Whether the two sides of the diff are identical: every field `None`.
    pub fn is_unchanged(&self) -> (r: bool)
        ensures
            r == diff_unchanged(self@),
    {
        self.status.is_none() && self.ports.is_none() && self.addresses.is_none()
            && self.hostnames.is_none()
    }

    /// Remove from each side of the ports diff every port that has a
    /// counterpart on the other side with the same protocol, number and
    /// status, so that only genuine changes remain.
    pub fn remove_identical_ports(&mut self)
        ensures
            final(self)@ == suppress_diff_view(old(self)@),
    {
        let suppressed = match &self.ports {
            Option::Some(p) => Option::Some(
                (retain_unmatched(&p.0, &p.1), retain_unmatched(&p.1, &p.0)),
            ),
            Option::None => Option::None,
        };
        if suppressed.is_some() {
            self.ports = suppressed;
        }
    }
}

} // verus!

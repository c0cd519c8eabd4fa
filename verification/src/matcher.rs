use vstd::prelude::*;

use crate::host::{Address, Host, HostView};

verus! {

/// Two host records refer to the same machine when some address appears in
/// both address lists. Addresses compare by exact value within their kind;
/// hostnames carry no identity.
pub open spec fn hosts_match(a: HostView, b: HostView) -> bool {
    exists|i: int, j: int|
        0 <= i < a.addresses.len() && 0 <= j < b.addresses.len() && a.addresses[i]
            == b.addresses[j]
}

/// Whether some host of the snapshot `snap` matches `h`.
pub open spec fn has_match(h: HostView, snap: Seq<HostView>) -> bool {
    exists|k: int| 0 <= k < snap.len() && hosts_match(h, #[trigger] snap[k])
}

/// Whether `list` holds an address equal to `a`.
fn contains_address(list: &Vec<Address>, a: &Address) -> (r: bool)
    ensures
        r == exists|j: int| 0 <= j < list@.len() && #[trigger] list@[j]@ == a@,
{
    let mut j: usize = 0;
    while j < list.len()
        invariant
            j <= list.len(),
            forall|k: int| 0 <= k < j ==> #[trigger] list@[k]@ != a@,
        decreases list.len() - j,
    {
        if list[j].same(a) {
            return true;
        }
        j = j + 1;
    }
    false
}

/// The identity matcher: `true` exactly when the two hosts share an address.
pub fn same_host(a: &Host, b: &Host) -> (r: bool)
    ensures
        r == hosts_match(a@, b@),
{
    let mut i: usize = 0;
    while i < a.addresses.len()
        invariant
            i <= a.addresses.len(),
            forall|k: int, j: int|
                0 <= k < i && 0 <= j < b@.addresses.len() ==> #[trigger] a@.addresses[k]
                    != #[trigger] b@.addresses[j],
        decreases a.addresses.len() - i,
    {
        if contains_address(&b.addresses, &a.addresses[i]) {
            proof {
                let ghost ai = a.addresses@[i as int]@;
                let j = choose|j: int|
                    0 <= j < b.addresses@.len() && #[trigger] b.addresses@[j]@ == ai;
                assert(a@.addresses[i as int] == b@.addresses[j]);
            }
            return true;
        }
        i = i + 1;
    }
    assert(!hosts_match(a@, b@));
    false
}

/// Identity is symmetric: whether two hosts share an address does not depend
/// on the order of the arguments.
pub proof fn lemma_match_symmetric(a: HostView, b: HostView)
    ensures
        hosts_match(a, b) == hosts_match(b, a),
{
    if hosts_match(a, b) {
        let (i, j) = choose|i: int, j: int|
            0 <= i < a.addresses.len() && 0 <= j < b.addresses.len() && a.addresses[i]
                == b.addresses[j];
        assert(b.addresses[j] == a.addresses[i]);
        assert(hosts_match(b, a));
    }
    if hosts_match(b, a) {
        let (i, j) = choose|i: int, j: int|
            0 <= i < b.addresses.len() && 0 <= j < a.addresses.len() && b.addresses[i]
                == a.addresses[j];
        assert(a.addresses[j] == b.addresses[i]);
        assert(hosts_match(a, b));
    }
}

/// A host without addresses never matches any host, in either direction,
/// another address-less host included.
pub proof fn lemma_no_address_no_match(a: HostView, b: HostView)
    requires
        a.addresses.len() == 0,
    ensures
        !hosts_match(a, b),
        !hosts_match(b, a),
{
}

} // verus!

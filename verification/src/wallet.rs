//! Wallet views: the descriptors a wallet lists, and its unspent outputs
//! grouped by address.

use vstd::prelude::*;
use crate::text::owned;

verus! {

/// One output descriptor of a wallet.
pub struct DescriptorInfo {
    pub descriptor: String,
    pub active: bool,
    pub range: Option<Vec<u64>>,
    pub timestamp: u64,
}

/// The fields of one entry of a wallet's descriptor list, as far as they
/// have the expected types: the descriptor text, whether it is active, its
/// timestamp, and its range (each bound, if it is an unsigned integer).
pub struct DescriptorFields {
    pub desc: Option<String>,
    pub active: Option<bool>,
    pub timestamp: Option<u64>,
    pub range: Option<Vec<Option<u64>>>,
}

/// The values that are present, in order.
pub open spec fn present(v: Seq<Option<u64>>) -> Seq<u64>
    decreases v.len(),
{
    if v.len() == 0 {
        Seq::empty()
    } else {
        match v.last() {
            Some(x) => present(v.drop_last()).push(x),
            None => present(v.drop_last()),
        }
    }
}

/// Whether `d` is the descriptor an entry describes: an entry without a
/// descriptor text, or with an empty one, describes none; otherwise
/// missing fields read as inactive and timestamp zero, and the range keeps
/// the bounds that are unsigned integers.
pub open spec fn describes(f: DescriptorFields, d: Option<DescriptorInfo>) -> bool {
    let text = match f.desc {
        Some(s) => s@,
        None => Seq::empty(),
    };
    if text.len() == 0 {
        d is None
    } else {
        d matches Some(info) && info.descriptor@ == text && info.active == (match f.active {
            Some(a) => a,
            None => false,
        }) && info.timestamp == (match f.timestamp {
            Some(t) => t,
            None => 0,
        }) && match f.range {
            Some(r) => info.range matches Some(ir) && ir@ == present(r@),
            None => info.range is None,
        }
    }
}

fn present_values(v: &Vec<Option<u64>>) -> (r: Vec<u64>)
    ensures
        r@ == present(v@),
{
    let mut out: Vec<u64> = Vec::new();
    let mut i: usize = 0;
    while i < v.len()
        invariant
            i <= v.len(),
            out@ == present(v@.take(i as int)),
        decreases v.len() - i,
    {
        assert(v@.take(i + 1).drop_last() =~= v@.take(i as int));
        match v[i] {
            Some(x) => out.push(x),
            None => {},
        }
        i = i + 1;
    }
    assert(v@.take(v.len() as int) =~= v@);
    out
}

/// The descriptor an entry describes, if any (see [`describes`]).
pub fn descriptor_from_fields(f: &DescriptorFields) -> (r: Option<DescriptorInfo>)
    ensures
        describes(*f, r),
{
    let text = match &f.desc {
        Some(s) => s.clone(),
        None => String::new(),
    };
    if text.as_str().is_empty() {
        return None;
    }
    let active = match f.active {
        Some(a) => a,
        None => false,
    };
    let timestamp = match f.timestamp {
        Some(t) => t,
        None => 0,
    };
    let range = match &f.range {
        Some(r) => Some(present_values(r)),
        None => None,
    };
    Some(DescriptorInfo { descriptor: text, active, range, timestamp })
}

/// The descriptors the entries describe, in order, skipping entries that
/// describe none.
pub fn collect_descriptors(entries: &Vec<DescriptorFields>) -> (r: Vec<DescriptorInfo>)
    ensures
        exists|ds: Seq<Option<DescriptorInfo>>|
            ds.len() == entries@.len() && (forall|k: int| 0 <= k < ds.len() ==> describes(
                #[trigger] entries@[k],
                ds[k],
            )) && r@ == somes(ds),
{
    let mut out: Vec<DescriptorInfo> = Vec::new();
    let ghost mut ds: Seq<Option<DescriptorInfo>> = Seq::empty();
    let mut i: usize = 0;
    while i < entries.len()
        invariant
            i <= entries.len(),
            ds.len() == i,
            forall|k: int| 0 <= k < i ==> describes(#[trigger] entries@[k], ds[k]),
            out@ == somes(ds),
        decreases entries.len() - i,
    {
        let d = descriptor_from_fields(&entries[i]);
        let ghost prev = ds;
        proof {
            ds = ds.push(d);
            assert(ds.drop_last() =~= prev);
        }
        match d {
            Some(info) => out.push(info),
            None => {},
        }
        i = i + 1;
    }
    out
}

/// The present values of a sequence of options, in order.
pub open spec fn somes<T>(v: Seq<Option<T>>) -> Seq<T>
    decreases v.len(),
{
    if v.len() == 0 {
        Seq::empty()
    } else {
        match v.last() {
            Some(x) => somes(v.drop_last()).push(x),
            None => somes(v.drop_last()),
        }
    }
}

/// An address and the positions of the unspent outputs paying to it.
pub struct AddressGroup {
    pub address: String,
    pub members: Vec<usize>,
}

/// Whether `groups` groups the outputs by address: each output with an
/// address belongs to the one group of that address, each group lists its
/// outputs in order and has at least one, no address has two groups, and
/// groups come in the order of their first output.
pub open spec fn groups_outputs(addresses: Seq<Option<String>>, groups: Seq<AddressGroup>) -> bool {
    &&& forall|g: int|
        0 <= g < groups.len() ==> #[trigger] groups[g].members@.len() > 0
    &&& forall|g: int, a: int, b: int|
        0 <= g < groups.len() && 0 <= a < b < groups[g].members@.len() ==> #[trigger] groups[g].members@[a]
            < #[trigger] groups[g].members@[b]
    &&& forall|g: int, a: int|
        0 <= g < groups.len() && 0 <= a < groups[g].members@.len() ==> {
            let m = #[trigger] groups[g].members@[a];
            &&& m < addresses.len()
            &&& addresses[m as int] matches Some(x) && x@ == groups[g].address@
        }
    &&& forall|k: int|
        0 <= k < addresses.len() && #[trigger] addresses[k] is Some ==> exists|g: int|
            0 <= g < groups.len() && #[trigger] groups[g].members@.contains(k as usize)
    &&& forall|g: int, h: int|
        0 <= g < h < groups.len() ==> #[trigger] groups[g].address@ != #[trigger] groups[h].address@
    &&& forall|g: int, h: int|
        0 <= g < h < groups.len() ==> #[trigger] groups[g].members@[0] < #[trigger] groups[h].members@[0]
}

/// Groups unspent outputs by the address they pay to (see
/// [`groups_outputs`]); `addresses[k]` is the address of output `k`, if it
/// has one.
pub fn group_by_address(addresses: &Vec<Option<String>>) -> (r: Vec<AddressGroup>)
    ensures
        groups_outputs(addresses@, r@),
{
    let mut groups: Vec<AddressGroup> = Vec::new();
    let mut k: usize = 0;
    while k < addresses.len()
        invariant
            k <= addresses.len(),
            groups_outputs(addresses@.take(k as int), groups@),
            forall|g: int, a: int|
                0 <= g < groups.len() && 0 <= a < groups@[g].members@.len() ==> #[trigger] groups@[g].members@[a] < k,
        decreases addresses.len() - k,
    {
        let ghost prev_addrs = addresses@.take(k as int);
        let ghost cur_addrs = addresses@.take(k + 1);
        assert(forall|j: int| 0 <= j < k ==> #[trigger] cur_addrs[j] == prev_addrs[j]);
        match &addresses[k] {
            None => {
                proof {
                    assert forall|j: int| 0 <= j < cur_addrs.len() && #[trigger] cur_addrs[j] is Some implies exists|
                        g: int,
                    | 0 <= g < groups.len() && #[trigger] groups@[g].members@.contains(j as usize) by {
                        assert(prev_addrs[j] is Some);
                    }
                }
            },
            Some(a) => {
                let mut g: usize = 0;
                while g < groups.len() && groups[g].address != *a
                    invariant
                        g <= groups.len(),
                        forall|h: int| 0 <= h < g ==> #[trigger] groups@[h].address@ != a@,
                    decreases groups.len() - g,
                {
                    g = g + 1;
                }
                let ghost before = groups@;
                if g < groups.len() {
                    let mut group = groups.remove(g);
                    group.members.push(k);
                    groups.insert(g, group);
                    proof {
                        let cur = groups@;
                        assert(cur.len() == before.len());
                        assert forall|h: int| 0 <= h < cur.len() && h != g implies #[trigger] cur[h] == before[h] by {}
                        assert(cur[g as int].address@ == a@);
                        assert(cur[g as int].members@ == before[g as int].members@.push(k));
                        assert forall|j: int| 0 <= j < cur_addrs.len() && #[trigger] cur_addrs[j] is Some implies exists|
                            h: int,
                        | 0 <= h < cur.len() && #[trigger] cur[h].members@.contains(j as usize) by {
                            if j == k {
                                assert(cur[g as int].members@[cur[g as int].members@.len() - 1] == k);
                                assert(cur[g as int].members@.contains(j as usize));
                            } else {
                                assert(prev_addrs[j] is Some);
                                let h = choose|h: int| 0 <= h < before.len() && #[trigger] before[h].members@.contains(j as usize);
                                if h == g {
                                    let q = choose|q: int| 0 <= q < before[h].members@.len() && before[h].members@[q] == j as usize;
                                    assert(cur[h].members@[q] == j as usize);
                                }
                                assert(cur[h].members@.contains(j as usize));
                            }
                        }
                        assert forall|h: int, x: int|
                            0 <= h < cur.len() && 0 <= x < cur[h].members@.len() implies {
                            let m = #[trigger] cur[h].members@[x];
                            &&& m < cur_addrs.len()
                            &&& cur_addrs[m as int] matches Some(y) && y@ == cur[h].address@
                        } by {
                            if h == g && x == cur[h].members@.len() - 1 {
                            } else {
                                assert(cur[h].members@[x] == before[h].members@[x]);
                            }
                        }
                        assert forall|h: int, x: int, y: int|
                            0 <= h < cur.len() && 0 <= x < y < cur[h].members@.len() implies #[trigger] cur[h].members@[x]
                                < #[trigger] cur[h].members@[y] by {
                            if h == g && y == cur[h].members@.len() - 1 {
                                assert(cur[h].members@[x] == before[h].members@[x]);
                            } else {
                                assert(cur[h].members@[x] == before[h].members@[x]);
                                assert(cur[h].members@[y] == before[h].members@[y]);
                            }
                        }
                        assert forall|h1: int, h2: int|
                            0 <= h1 < h2 < cur.len() implies #[trigger] cur[h1].members@[0] < #[trigger] cur[h2].members@[0] by {
                            assert(cur[h1].members@[0] == before[h1].members@[0]);
                            assert(cur[h2].members@[0] == before[h2].members@[0]);
                        }
                        assert forall|h: int, x: int|
                            0 <= h < cur.len() && 0 <= x < cur[h].members@.len() implies #[trigger] cur[h].members@[x] < k + 1 by {
                            if !(h == g && x == cur[h].members@.len() - 1) {
                                assert(cur[h].members@[x] == before[h].members@[x]);
                            }
                        }
                    }
                } else {
                    let mut members: Vec<usize> = Vec::new();
                    members.push(k);
                    groups.push(AddressGroup { address: a.clone(), members });
                    proof {
                        let cur = groups@;
                        assert forall|h: int| 0 <= h < before.len() implies #[trigger] cur[h] == before[h] by {}
                        assert forall|j: int| 0 <= j < cur_addrs.len() && #[trigger] cur_addrs[j] is Some implies exists|
                            h: int,
                        | 0 <= h < cur.len() && #[trigger] cur[h].members@.contains(j as usize) by {
                            if j == k {
                                assert(cur[before.len() as int].members@[0] == k);
                                assert(cur[before.len() as int].members@.contains(j as usize));
                            } else {
                                assert(prev_addrs[j] is Some);
                                let h = choose|h: int| 0 <= h < before.len() && #[trigger] before[h].members@.contains(j as usize);
                                assert(cur[h].members@.contains(j as usize));
                            }
                        }
                        assert forall|h: int, x: int|
                            0 <= h < cur.len() && 0 <= x < cur[h].members@.len() implies {
                            let m = #[trigger] cur[h].members@[x];
                            &&& m < cur_addrs.len()
                            &&& cur_addrs[m as int] matches Some(y) && y@ == cur[h].address@
                        } by {
                            if h < before.len() {
                                assert(cur[h] == before[h]);
                            }
                        }
                        assert forall|h1: int, h2: int|
                            0 <= h1 < h2 < cur.len() implies #[trigger] cur[h1].address@ != #[trigger] cur[h2].address@ by {
                            if h2 < before.len() {
                                assert(cur[h1] == before[h1] && cur[h2] == before[h2]);
                            } else {
                                assert(cur[h1] == before[h1]);
                            }
                        }
                        assert forall|h1: int, h2: int|
                            0 <= h1 < h2 < cur.len() implies #[trigger] cur[h1].members@[0] < #[trigger] cur[h2].members@[0] by {
                            if h2 < before.len() {
                                assert(cur[h1] == before[h1] && cur[h2] == before[h2]);
                            } else {
                                assert(cur[h1] == before[h1]);
                                assert(before[h1].members@[0] < k);
                            }
                        }
                        assert forall|h: int, x: int, y: int|
                            0 <= h < cur.len() && 0 <= x < y < cur[h].members@.len() implies #[trigger] cur[h].members@[x]
                                < #[trigger] cur[h].members@[y] by {
                            if h < before.len() {
                                assert(cur[h] == before[h]);
                            }
                        }
                        assert forall|h: int, x: int|
                            0 <= h < cur.len() && 0 <= x < cur[h].members@.len() implies #[trigger] cur[h].members@[x] < k + 1 by {
                            if h < before.len() {
                                assert(cur[h] == before[h]);
                            }
                        }
                    }
                }
            },
        }
        k = k + 1;
    }
    assert(addresses@.take(addresses.len() as int) =~= addresses@);
    groups
}

} // verus!

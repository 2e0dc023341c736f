//! The list of hosts to scan: IPv4 addresses as 32-bit numbers, most
//! significant octet first, sorted and without duplicates.

use vstd::prelude::*;

verus! {

/// Each item is below the one that follows it.
pub open spec fn strictly_increasing(s: Seq<u32>) -> bool {
    forall|i: int, j: int| 0 <= i < j < s.len() ==> s[i] < s[j]
}

/// The two lists hold the same addresses, whatever their order or number.
pub open spec fn same_addresses(a: Seq<u32>, b: Seq<u32>) -> bool {
    forall|x: u32| a.contains(x) <==> b.contains(x)
}

/// The IPv4 address `a.b.c.d` as a number.
pub open spec fn ipv4(a: u8, b: u8, c: u8, d: u8) -> u32 {
    (a as u32 * 0x100_0000 + b as u32 * 0x1_0000 + c as u32 * 0x100 + d as u32) as u32
}

/// The IPv4 address `a.b.c.d` as a number.
pub fn host(a: u8, b: u8, c: u8, d: u8) -> (address: u32)
    ensures
        address == ipv4(a, b, c, d),
{
    a as u32 * 0x100_0000 + b as u32 * 0x1_0000 + c as u32 * 0x100 + d as u32
}

/// The index of the first item of a sorted list that is not below `x`.
fn lower_bound(sorted: &Vec<u32>, x: u32) -> (at: usize)
    requires
        strictly_increasing(sorted@),
    ensures
        at <= sorted@.len(),
        forall|i: int| 0 <= i < at ==> sorted@[i] < x,
        forall|i: int| at <= i < sorted@.len() ==> sorted@[i] >= x,
{
    let mut at: usize = 0;
    while at < sorted.len() && sorted[at] < x
        invariant
            at <= sorted@.len(),
            forall|i: int| 0 <= i < at ==> sorted@[i] < x,
        decreases sorted@.len() - at,
    {
        at += 1;
    }
    at
}

/// Sorts the addresses and drops the duplicates.
pub fn normalize_hosts(hosts: &Vec<u32>) -> (sorted: Vec<u32>)
    ensures
        strictly_increasing(sorted@),
        same_addresses(sorted@, hosts@),
        sorted@.len() <= hosts@.len(),
{
    let mut sorted: Vec<u32> = Vec::new();
    let mut k: usize = 0;
    while k < hosts.len()
        invariant
            k <= hosts@.len(),
            sorted@.len() <= k,
            strictly_increasing(sorted@),
            forall|x: u32| sorted@.contains(x) <==> hosts@.take(k as int).contains(x),
        decreases hosts@.len() - k,
    {
        let x = hosts[k];
        let at = lower_bound(&sorted, x);
        let ghost before = sorted@;
        let present = at < sorted.len() && sorted[at] == x;
        if !present {
            sorted.insert(at, x);
            assert forall|i: int, j: int| 0 <= i < j < sorted@.len() implies sorted@[i]
                < sorted@[j] by {
                if i < at && j > at {
                    assert(sorted@[i] == before[i] && sorted@[j] == before[j - 1]);
                } else if i < at && j < at {
                    assert(sorted@[i] == before[i] && sorted@[j] == before[j]);
                } else if i > at {
                    assert(sorted@[i] == before[i - 1] && sorted@[j] == before[j - 1]);
                }
            }
        }
        proof {
            let ghost earlier = hosts@.take(k as int);
            let ghost later = hosts@.take(k + 1);
            assert(later =~= earlier.push(x));
            assert forall|y: u32| sorted@.contains(y) <==> later.contains(y) by {
                if later.contains(y) {
                    let w = choose|w: int| 0 <= w < later.len() && later[w] == y;
                    if w < k {
                        assert(earlier[w] == y);
                        assert(earlier.contains(y));
                        assert(before.contains(y));
                        let v = choose|v: int| 0 <= v < before.len() && before[v] == y;
                        if present {
                            assert(sorted@[v] == y);
                        } else if v < at {
                            assert(sorted@[v] == y);
                        } else {
                            assert(sorted@[v + 1] == y);
                        }
                    } else {
                        assert(y == x);
                        assert(sorted@[at as int] == x);
                    }
                }
                if sorted@.contains(y) {
                    let v = choose|v: int| 0 <= v < sorted@.len() && sorted@[v] == y;
                    if present {
                        assert(before.contains(y));
                        assert(earlier.contains(y));
                        let w = choose|w: int| 0 <= w < earlier.len() && earlier[w] == y;
                        assert(later[w] == y);
                    } else if v == at {
                        assert(later[k as int] == y);
                    } else {
                        if v < at {
                            assert(before[v] == y);
                        } else {
                            assert(before[v - 1] == y);
                        }
                        assert(before.contains(y));
                        assert(earlier.contains(y));
                        let w = choose|w: int| 0 <= w < earlier.len() && earlier[w] == y;
                        assert(later[w] == y);
                    }
                }
            }
        }
        k += 1;
    }
    assert(hosts@.take(k as int) =~= hosts@);
    sorted
}

} // verus!

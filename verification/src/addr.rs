//! Addresses of caches.

use vstd::prelude::*;

verus! {

/// The socket address of a cache: an IPv4 or IPv6 address and a port.
///
/// Two addresses are equal exactly when all their parts are equal, as for the
/// standard library's socket addresses: the IPv4 address is held as its 32 bits
/// and the IPv6 address as its 128 bits, with its flow label and scope id.
#[derive(PartialEq, Eq, Structural, Clone, Copy, Hash, Debug)]
pub enum CacheAddr {
    V4 { ipv4: u32, port: u16 },
    V6 { ipv6: u128, port: u16, flowinfo: u32, scope_id: u32 },
}

/// Whether `addr` occurs in `list`.
pub fn contains_addr(list: &Vec<CacheAddr>, addr: &CacheAddr) -> (found: bool)
    ensures
        found == list@.contains(*addr),
{
    let mut i: usize = 0;
    while i < list.len()
        invariant
            i <= list.len(),
            forall|j: int| 0 <= j < i ==> list@[j] != *addr,
        decreases list.len() - i,
    {
        if list[i] == *addr {
            assert(list@[i as int] == *addr);
            return true;
        }
        i = i + 1;
    }
    false
}

} // verus!

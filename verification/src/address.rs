//! Where a peer is reached.
use crate::wire::{get_be16, read_be16};
use vstd::prelude::*;

verus! {

/// The four bytes of an IPv4 address, first to last.
#[derive(Debug, Clone, Copy, PartialEq, Eq, Structural)]
pub struct Ipv4 {
    pub a: u8,
    pub b: u8,
    pub c: u8,
    pub d: u8,
}

/// An IPv4 address and a port.
#[derive(Debug, Clone, Copy, PartialEq, Eq, Structural)]
pub struct PeerAddress {
    pub ip: Ipv4,
    pub port: u16,
}

/// The address that six bytes of `bytes` at `at` stand for: four bytes of IP, two of port.
pub open spec fn read_address(bytes: Seq<u8>, at: int) -> PeerAddress {
    PeerAddress {
        ip: Ipv4 { a: bytes[at], b: bytes[at + 1], c: bytes[at + 2], d: bytes[at + 3] },
        port: read_be16(bytes, at + 4),
    }
}

/// The first `count` addresses in `bytes` from `from` on, six bytes each.
pub open spec fn read_addresses(bytes: Seq<u8>, from: int, count: nat) -> Seq<PeerAddress> {
    Seq::new(count, |i: int| read_address(bytes, from + i * 6))
}

/// The first `count` addresses in `bytes` from `from` on.
pub fn get_addresses(bytes: &[u8], from: usize, count: usize) -> (addresses: Vec<PeerAddress>)
    requires
        from + count * 6 <= bytes@.len(),
    ensures
        addresses@ == read_addresses(bytes@, from as int, count as nat),
{
    let mut addresses: Vec<PeerAddress> = Vec::new();
    let mut i: usize = 0;
    let mut at: usize = from;
    assert(bytes.len() == bytes@.len());
    while i < count
        invariant
            i <= count,
            at == from + i * 6,
            from + count * 6 <= bytes@.len() <= usize::MAX,
            addresses@ == read_addresses(bytes@, from as int, i as nat),
        decreases count - i,
    {
        addresses.push(
            PeerAddress {
                ip: Ipv4 { a: bytes[at], b: bytes[at + 1], c: bytes[at + 2], d: bytes[at + 3] },
                port: get_be16(bytes, at + 4),
            },
        );
        i = i + 1;
        at = at + 6;
        assert(addresses@ =~= read_addresses(bytes@, from as int, i as nat));
    }
    addresses
}

/// The address at which a client on this machine listens.
pub open spec fn local_address(port: u16) -> PeerAddress {
    PeerAddress { ip: Ipv4 { a: 127, b: 0, c: 0, d: 1 }, port }
}

/// The addresses other than `address`, in their order.
pub open spec fn without(addresses: Seq<PeerAddress>, address: PeerAddress) -> Seq<PeerAddress> {
    addresses.filter(|a: PeerAddress| a != address)
}

/// The addresses other than `address`, in their order.
pub fn remove_address(addresses: &Vec<PeerAddress>, address: PeerAddress) -> (others: Vec<
    PeerAddress,
>)
    ensures
        others@ == without(addresses@, address),
{
    let n: usize = addresses.len();
    let mut others: Vec<PeerAddress> = Vec::new();
    let mut i: usize = 0;
    reveal(Seq::filter);
    assert(addresses@.take(0) =~= Seq::<PeerAddress>::empty());
    while i < n
        invariant
            i <= n == addresses@.len(),
            others@ == without(addresses@.take(i as int), address),
        decreases n - i,
    {
        let ghost next = addresses@.take(i + 1);
        assert(next.drop_last() =~= addresses@.take(i as int));
        assert(next.last() == addresses@[i as int]);
        reveal(Seq::filter);
        if addresses[i] != address {
            others.push(addresses[i]);
        }
        i = i + 1;
    }
    assert(addresses@.take(n as int) =~= addresses@);
    others
}

/// The addresses of `addresses` that are not that of this client itself, in their order.
pub fn other_peers(addresses: &Vec<PeerAddress>, port: u16) -> (others: Vec<PeerAddress>)
    ensures
        others@ == without(addresses@, local_address(port)),
{
    remove_address(addresses, PeerAddress { ip: Ipv4 { a: 127, b: 0, c: 0, d: 1 }, port })
}

/// An address that is removed is gone, however often it was there, and every other stays.
pub proof fn law_removed_address_is_gone(
    addresses: Seq<PeerAddress>,
    address: PeerAddress,
    other: PeerAddress,
)
    ensures
        !without(addresses, address).contains(address),
        other != address ==> (without(addresses, address).contains(other) <==> addresses.contains(
            other,
        )),
    decreases addresses.len(),
{
    reveal(Seq::filter);
    if addresses.len() > 0 {
        let shorter = addresses.drop_last();
        let last = addresses.last();
        law_removed_address_is_gone(shorter, address, other);
        assert(addresses =~= shorter.push(last));
        assert(shorter.push(last).contains(other) <==> shorter.contains(other) || last == other) by {
            if shorter.contains(other) {
                let k = shorter.index_of(other);
                assert(shorter.push(last)[k] == other);
            }
            if last == other {
                assert(shorter.push(last)[shorter.len() as int] == other);
            }
        }
        if last != address {
            let kept = without(shorter, address);
            assert(without(addresses, address) == kept.push(last));
            assert(kept.push(last).contains(other) <==> kept.contains(other) || last == other) by {
                if kept.contains(other) {
                    let k = kept.index_of(other);
                    assert(kept.push(last)[k] == other);
                }
                if last == other {
                    assert(kept.push(last)[kept.len() as int] == other);
                }
            }
        }
    }
}

} // verus!

//! Address blocks in CIDR notation and the addresses they hold.

use vstd::prelude::*;
use vstd::arithmetic::power2::pow2;
use crate::address::Address;
use crate::error::ConfigurationError;

verus! {

/// The network mask of a prefix length: the top `prefix` bits set.
pub open spec fn netmask(prefix: u8) -> u32 {
    if prefix == 0 {
        0u32
    } else {
        u32::MAX << ((32 - prefix) as u32)
    }
}

/// The host mask of a prefix length: the low `32 - prefix` bits set.
pub open spec fn hostmask(prefix: u8) -> u32 {
    if prefix >= 32 {
        0u32
    } else {
        u32::MAX >> (prefix as u32)
    }
}

/// The addresses from `first` to `last`, both included, in ascending order.
/// Empty where `first` is above `last`.
pub open spec fn address_range(first: u32, last: u32) -> Seq<Address> {
    if first > last {
        Seq::empty()
    } else {
        Seq::new((last - first + 1) as nat, |i: int| Address { bits: (first + i) as u32 })
    }
}

/// Calls `ipnet::Ipv4Net::new` and then `Ipv4Net::network` on what it made.
/// The first fails exactly on a prefix length above 32. The second clears the
/// host bits of the address: it keeps the bits under the network mask.
#[verifier::external_body]
fn ipnet_network(start: u32, prefix: u8) -> (r: Option<u32>)
    ensures
        prefix <= 32 ==> r == Some(start & netmask(prefix)),
        prefix > 32 ==> r is None,
{
    match ipnet::Ipv4Net::new(start.into(), prefix) {
        Ok(net) => Some(net.network().into()),
        Err(_) => None,
    }
}

/// Calls `ipnet::Ipv4Net::new` and then `Ipv4Net::broadcast` on what it made.
/// The first fails exactly on a prefix length above 32. The second sets the
/// host bits of the address: it adds the bits under the host mask.
#[verifier::external_body]
fn ipnet_broadcast(start: u32, prefix: u8) -> (r: Option<u32>)
    ensures
        prefix <= 32 ==> r == Some(start | hostmask(prefix)),
        prefix > 32 ==> r is None,
{
    match ipnet::Ipv4Net::new(start.into(), prefix) {
        Ok(net) => Some(net.broadcast().into()),
        Err(_) => None,
    }
}

/// A start address and a prefix length of at most 32.
#[derive(Clone, Copy, Debug)]
pub struct AddressBlock {
    start: Address,
    prefix: u8,
}

impl AddressBlock {
    #[verifier::type_invariant]
    spec fn inv(self) -> bool {
        self.prefix <= 32
    }

    /// The address the block was made with.
    pub closed spec fn start(self) -> Address {
        self.start
    }

    /// The prefix length the block was made with.
    pub closed spec fn prefix(self) -> u8 {
        self.prefix
    }

    /// The prefix length is one of an IPv4 block.
    pub open spec fn wf(self) -> bool {
        self.prefix() <= 32
    }

    /// The start address with its host bits cleared.
    pub open spec fn network(self) -> Address {
        Address { bits: self.start().bits & netmask(self.prefix()) }
    }

    /// The start address with its host bits set.
    pub open spec fn broadcast(self) -> Address {
        Address { bits: self.start().bits | hostmask(self.prefix()) }
    }

    /// Every address from the network address to the broadcast address, in
    /// ascending order.
    pub open spec fn addresses(self) -> Seq<Address> {
        address_range(self.network().bits, self.broadcast().bits)
    }

    /// The block of `start` with the given prefix length, or `InvalidBlock`
    /// where the prefix length is above 32.
    pub fn new(start: Address, prefix: u32) -> (r: Result<AddressBlock, ConfigurationError>)
        ensures
            r is Ok <==> prefix <= 32,
            r matches Ok(block) ==> block.start() == start && block.prefix() == prefix,
            r matches Err(e) ==> e == ConfigurationError::InvalidBlock,
    {
        if prefix > 255 {
            return Err(ConfigurationError::InvalidBlock);
        }
        let len: u8 = prefix as u8;
        match ipnet_network(start.bits, len) {
            Some(_) => Ok(AddressBlock { start, prefix: len }),
            None => Err(ConfigurationError::InvalidBlock),
        }
    }

    /// The address the block was made with.
    pub fn start_address(&self) -> (a: Address)
        ensures
            a == self.start(),
    {
        self.start
    }

    /// The prefix length the block was made with.
    pub fn prefix_len(&self) -> (p: u8)
        ensures
            p == self.prefix(),
            p <= 32,
    {
        proof {
            use_type_invariant(self);
        }
        self.prefix
    }

    /// The first address of the block.
    pub fn network_address(&self) -> (a: Address)
        ensures
            a == self.network(),
    {
        proof {
            use_type_invariant(self);
        }
        match ipnet_network(self.start.bits, self.prefix) {
            Some(bits) => Address { bits },
            None => self.start,
        }
    }

    /// The last address of the block.
    pub fn broadcast_address(&self) -> (a: Address)
        ensures
            a == self.broadcast(),
    {
        proof {
            use_type_invariant(self);
        }
        match ipnet_broadcast(self.start.bits, self.prefix) {
            Some(bits) => Address { bits },
            None => self.start,
        }
    }

    /// How many addresses the block holds.
    pub fn count(&self) -> (n: u64)
        ensures
            n == self.addresses().len(),
            n == pow2((32 - self.prefix()) as nat),
    {
        proof {
            use_type_invariant(self);
            lemma_block_extent(self.start.bits, self.prefix);
        }
        let first = self.network_address();
        let last = self.broadcast_address();
        (last.bits - first.bits) as u64 + 1
    }

    /// The addresses of the block as a sequence that is walked one by one.
    pub fn enumerate(&self) -> (it: IpIterator)
        ensures
            it.remaining() == self.addresses(),
    {
        IpIterator::new(self.network_address(), self.broadcast_address())
    }

    /// The addresses of the block, all at once.
    pub fn collect(&self) -> (v: Vec<Address>)
        requires
            self.addresses().len() <= usize::MAX,
        ensures
            v@ == self.addresses(),
    {
        let mut it = self.enumerate();
        it.collect()
    }
}

/// A walk over the addresses from a first to a last one, in ascending order.
#[derive(Debug)]
pub struct IpIterator {
    current: u64,
    end: u32,
}

impl IpIterator {
    /// The addresses that the walk has not handed out yet.
    pub closed spec fn remaining(self) -> Seq<Address> {
        if self.current > self.end {
            Seq::empty()
        } else {
            address_range(self.current as u32, self.end)
        }
    }

    /// A walk from `start` to `end`, both included.
    pub fn new(start: Address, end: Address) -> (it: IpIterator)
        ensures
            it.remaining() == address_range(start.bits, end.bits),
    {
        IpIterator { current: start.bits as u64, end: end.bits }
    }

    /// Hands out the next address, or `None` once the last one has been
    /// handed out.
    pub fn next(&mut self) -> (r: Option<Address>)
        ensures
            old(self).remaining().len() > 0 ==> r == Some(old(self).remaining()[0])
                && final(self).remaining() == old(self).remaining().drop_first(),
            old(self).remaining().len() == 0 ==> r is None && final(self).remaining() == old(
                self,
            ).remaining(),
    {
        if self.current <= self.end as u64 {
            let ip = Address { bits: self.current as u32 };
            self.current = self.current + 1;
            assert(final(self).remaining() =~= old(self).remaining().drop_first());
            Some(ip)
        } else {
            None
        }
    }

    /// How many addresses are left.
    pub fn len(&self) -> (n: u64)
        ensures
            n == self.remaining().len(),
    {
        if self.current <= self.end as u64 {
            self.end as u64 - self.current + 1
        } else {
            0
        }
    }

    /// Hands out all the addresses that are left.
    pub fn collect(&mut self) -> (v: Vec<Address>)
        requires
            old(self).remaining().len() <= usize::MAX,
        ensures
            v@ == old(self).remaining(),
            final(self).remaining().len() == 0,
    {
        let mut v: Vec<Address> = Vec::new();
        loop
            invariant
                v@ + self.remaining() == old(self).remaining(),
            ensures
                self.remaining().len() == 0,
            decreases self.remaining().len(),
        {
            match self.next() {
                Some(ip) => {
                    v.push(ip);
                },
                None => {
                    break ;
                },
            }
        }
        v
    }
}

/// The extent of a block: from its network address to its broadcast address
/// there are two to the power of the number of host bits addresses.
pub proof fn lemma_block_extent(start: u32, prefix: u8)
    requires
        prefix <= 32,
    ensures
        (start & netmask(prefix)) <= (start | hostmask(prefix)),
        (start | hostmask(prefix)) - (start & netmask(prefix)) + 1 == pow2((32 - prefix) as nat),
        address_range(start & netmask(prefix), start | hostmask(prefix)).len() == pow2(
            (32 - prefix) as nat,
        ),
{
    let m = netmask(prefix);
    let h = hostmask(prefix);
    let k: u64 = (32 - prefix) as u64;
    assert(m == !h) by (bit_vector)
        requires
            prefix <= 32,
            m == (if prefix == 0 {
                0u32
            } else {
                u32::MAX << ((32 - prefix) as u32)
            }),
            h == (if prefix >= 32 {
                0u32
            } else {
                u32::MAX >> (prefix as u32)
            }),
    ;
    assert((start & m) <= (start | h) && (start | h) - (start & m) == h) by (bit_vector)
        requires
            m == !h,
    ;
    assert(h as u64 + 1 == 1u64 << k) by (bit_vector)
        requires
            prefix <= 32,
            k == (32 - prefix) as u64,
            h == (if prefix >= 32 {
                0u32
            } else {
                u32::MAX >> (prefix as u32)
            }),
    ;
    vstd::bits::lemma_u64_pow2_no_overflow(k as nat);
    vstd::bits::lemma_u64_shl_is_mul(1u64, k);
}

/// What enumerating a block gives: two to the power of the number of host
/// bits addresses, the first the network address, the last the broadcast
/// address, each above the one before it, and so none twice.
pub proof fn lemma_enumeration(block: AddressBlock)
    requires
        block.wf(),
    ensures
        block.addresses().len() == pow2((32 - block.prefix()) as nat),
        block.addresses().len() >= 1,
        block.addresses().first() == block.network(),
        block.addresses().last() == block.broadcast(),
        forall|i: int, j: int|
            0 <= i < j < block.addresses().len() ==> block.addresses()[i].bits
                < block.addresses()[j].bits,
        block.addresses().no_duplicates(),
{
    lemma_block_extent(block.start().bits, block.prefix());
    vstd::arithmetic::power2::lemma_pow2_pos((32 - block.prefix()) as nat);
}

} // verus!

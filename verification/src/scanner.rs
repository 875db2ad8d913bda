//! The configuration of one sweep and the probing plan that follows from it.

use vstd::prelude::*;
use vstd::string::*;
use vstd::arithmetic::power2::pow2;
use crate::address::Address;
use crate::batch::{batch, batch_views, batches_of};
use crate::block::{AddressBlock, address_range, hostmask, lemma_enumeration, netmask};
use crate::error::ConfigurationError;
use crate::text::{chars_of, decimal_text, parse_u32, push_decimal, read_u32, trim, trimmed};

verus! {

/// The configuration of a sweep: where the probes come from, which block
/// they go to, and how many addresses one batch holds. It is made once and
/// never changed.
#[derive(Clone, Copy, Debug)]
pub struct NetworkScanner {
    source_ip: Address,
    target_start_ip: Address,
    target_cidr: u32,
    batch_size: usize,
}

impl NetworkScanner {
    /// The address that the probes are sent from.
    pub closed spec fn source(self) -> Address {
        self.source_ip
    }

    /// The address that the target block is given by.
    pub closed spec fn target_start(self) -> Address {
        self.target_start_ip
    }

    /// The prefix length of the target block.
    pub closed spec fn cidr(self) -> u32 {
        self.target_cidr
    }

    /// How many addresses one batch holds.
    pub closed spec fn batch(self) -> usize {
        self.batch_size
    }

    /// The target block in CIDR notation: the address, a `/`, and the prefix
    /// length.
    pub open spec fn cidr_text(self) -> Seq<char> {
        self.target_start().dotted() + seq!['/'] + decimal_text(self.cidr() as nat)
    }

    /// The addresses of the target block, in ascending order, where the
    /// prefix length is one of a block.
    pub open spec fn target_addresses(self) -> Seq<Address>
        recommends
            self.cidr() <= 32,
    {
        address_range(
            self.target_start().bits & netmask(self.cidr() as u8),
            self.target_start().bits | hostmask(self.cidr() as u8),
        )
    }

    /// Whether a vector can hold all addresses of the target block.
    pub open spec fn fits(self) -> bool {
        self.cidr() <= 32 ==> pow2((32 - self.cidr()) as nat) <= usize::MAX
    }

    /// A configuration with every value zero. No sweep runs on it: its batch
    /// size is refused.
    pub fn init() -> (s: NetworkScanner)
        ensures
            s.source() == (Address { bits: 0 }),
            s.target_start() == (Address { bits: 0 }),
            s.cidr() == 0,
            s.batch() == 0,
    {
        NetworkScanner {
            source_ip: Address { bits: 0 },
            target_start_ip: Address { bits: 0 },
            target_cidr: 0,
            batch_size: 0,
        }
    }

    /// A configuration with the given values, taken as they are.
    pub fn new(source_ip: Address, target_start_ip: Address, target_cidr: u32, batch_size: usize) -> (s:
        NetworkScanner)
        ensures
            s.source() == source_ip,
            s.target_start() == target_start_ip,
            s.cidr() == target_cidr,
            s.batch() == batch_size,
    {
        NetworkScanner { source_ip, target_start_ip, target_cidr, batch_size }
    }

    /// The address that the probes are sent from.
    pub fn source_ip(&self) -> (a: Address)
        ensures
            a == self.source(),
    {
        self.source_ip
    }

    /// The address that the target block is given by.
    pub fn target_start_ip(&self) -> (a: Address)
        ensures
            a == self.target_start(),
    {
        self.target_start_ip
    }

    /// The prefix length of the target block.
    pub fn target_cidr(&self) -> (p: u32)
        ensures
            p == self.cidr(),
    {
        self.target_cidr
    }

    /// How many addresses one batch holds.
    pub fn batch_size(&self) -> (n: usize)
        ensures
            n == self.batch(),
    {
        self.batch_size
    }

    /// Reads a prefix length from a line that was typed: a 32-bit number,
    /// the white space around it not counted. Whether it is one of a block is
    /// decided when the block is asked for.
    pub fn read_cidr(line: &str) -> (r: Option<u32>)
        ensures
            r == parse_u32(trimmed(line@)),
    {
        read_u32(&trim(&chars_of(line)))
    }

    /// The target block in CIDR notation.
    pub fn get_optimized_ip_cidr(&self) -> (r: String)
        ensures
            r@ == self.cidr_text(),
    {
        let mut out = String::new();
        self.target_start_ip.push_text(&mut out);
        proof {
            reveal_strlit("/");
        }
        out.append("/");
        push_decimal(&mut out, self.target_cidr);
        assert(out@ =~= self.cidr_text());
        out
    }

    /// The target block, or `InvalidBlock` where the prefix length is above 32.
    pub fn target_block(&self) -> (r: Result<AddressBlock, ConfigurationError>)
        ensures
            r is Ok <==> self.cidr() <= 32,
            r matches Ok(block) ==> block.start() == self.target_start() && block.prefix()
                == self.cidr() && block.addresses() == self.target_addresses(),
            r matches Err(e) ==> e == ConfigurationError::InvalidBlock,
    {
        AddressBlock::new(self.target_start_ip, self.target_cidr)
    }

    /// Whether a vector can hold all addresses of the target block. Only the
    /// whole address space on a machine with 32-bit sizes does not fit.
    pub fn fits_in_memory(&self) -> (b: bool)
        ensures
            b == self.fits(),
    {
        match self.target_block() {
            Ok(block) => block.count() <= usize::MAX as u64,
            Err(_) => true,
        }
    }

    /// Every address of the target block, from its network address to its
    /// broadcast address, or `InvalidBlock` where the prefix length is above
    /// 32.
    pub fn get_collected_ips(&self) -> (r: Result<Vec<Address>, ConfigurationError>)
        requires
            self.fits(),
        ensures
            r is Ok <==> self.cidr() <= 32,
            r matches Ok(ips) ==> ips@ == self.target_addresses(),
            r matches Err(e) ==> e == ConfigurationError::InvalidBlock,
    {
        match self.target_block() {
            Ok(block) => {
                proof {
                    lemma_enumeration(block);
                }
                Ok(block.collect())
            },
            Err(e) => Err(e),
        }
    }

    /// The addresses of the target block cut into batches of the configured
    /// size, in ascending order. `InvalidBlock` where the prefix length is
    /// above 32; else `InvalidBatchSize` where the batch size is zero.
    pub fn get_ip_batches(&self) -> (r: Result<Vec<Vec<Address>>, ConfigurationError>)
        requires
            self.fits(),
        ensures
            r is Ok <==> self.cidr() <= 32 && self.batch() >= 1,
            r matches Ok(batches) ==> batch_views(batches@) == batches_of(
                self.target_addresses(),
                self.batch() as nat,
            ),
            r matches Err(e) ==> e == (if self.cidr() > 32 {
                ConfigurationError::InvalidBlock
            } else {
                ConfigurationError::InvalidBatchSize
            }),
    {
        match self.get_collected_ips() {
            Ok(ips) => batch(&ips, self.batch_size),
            Err(e) => Err(e),
        }
    }
}

} // verus!

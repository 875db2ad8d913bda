//! The open ports found per address: kept, merged and written out.

use vstd::prelude::*;
use vstd::string::*;
use crate::address::Address;
use crate::distinct::{distinct, lemma_distinct, lemma_distinct_of_distinct};
use crate::text::{decimal_text, pad_right, push_decimal, push_spaces};

verus! {

/// The entries of a result map in the order in which their addresses were
/// first recorded: an address and the ports found open on it.
pub type Entries = Seq<(Address, Seq<u16>)>;

/// The width of the field in which an address is written.
pub const ADDRESS_WIDTH: usize = 15;

/// The position of the first entry for `address`, or the number of entries
/// where there is none.
pub open spec fn key_index(entries: Entries, address: Address) -> int
    decreases entries.len(),
{
    if entries.len() == 0 || entries.first().0 == address {
        0
    } else {
        1 + key_index(entries.drop_first(), address)
    }
}

/// The ports recorded for `address`, if any are.
pub open spec fn lookup(entries: Entries, address: Address) -> Option<Seq<u16>> {
    let k = key_index(entries, address);
    if k < entries.len() {
        Some(entries[k].1)
    } else {
        None
    }
}

/// The entries as a map from address to ports.
pub open spec fn as_map(entries: Entries) -> Map<Address, Seq<u16>> {
    Map::new(
        |address: Address| lookup(entries, address) is Some,
        |address: Address| lookup(entries, address)->0,
    )
}

/// The entries after `ports` were recorded for `address`: in place of what
/// was recorded for it before, or at the end where nothing was.
pub open spec fn upsert(entries: Entries, address: Address, ports: Seq<u16>) -> Entries {
    let k = key_index(entries, address);
    if k < entries.len() {
        entries.update(k, (address, ports))
    } else {
        entries.push((address, ports))
    }
}

/// The entries of `earlier` after each entry of `later` was recorded in turn.
pub open spec fn merged(earlier: Entries, later: Entries) -> Entries
    decreases later.len(),
{
    if later.len() == 0 {
        earlier
    } else {
        upsert(merged(earlier, later.drop_last()), later.last().0, later.last().1)
    }
}

/// What a result map holds to: no address twice, and for each address at
/// least one port, none twice.
pub open spec fn valid_entries(entries: Entries) -> bool {
    &&& forall|i: int, j: int|
        0 <= i < j < entries.len() ==> (#[trigger] entries[i]).0 != (#[trigger] entries[j]).0
    &&& forall|i: int| 0 <= i < entries.len() ==> (#[trigger] entries[i]).1.len() > 0
    &&& forall|i: int| 0 <= i < entries.len() ==> (#[trigger] entries[i]).1.no_duplicates()
}

/// Port numbers in decimal with `", "` between them.
pub open spec fn joined_ports(ports: Seq<u16>) -> Seq<char>
    decreases ports.len(),
{
    if ports.len() == 0 {
        Seq::empty()
    } else if ports.len() == 1 {
        decimal_text(ports[0] as nat)
    } else {
        joined_ports(ports.drop_last()) + seq![',', ' '] + decimal_text(ports.last() as nat)
    }
}

/// The two lines written for one entry: the address, filled with spaces to
/// fifteen characters, and the ports.
pub open spec fn entry_text(address: Address, ports: Seq<u16>) -> Seq<char> {
    "IP-Address: "@ + pad_right(address.dotted(), ADDRESS_WIDTH as nat) + seq!['\n']
        + "Open ports: "@ + joined_ports(ports) + seq!['\n']
}

/// The lines written for all entries, in their order.
pub open spec fn rendered(entries: Entries) -> Seq<char>
    decreases entries.len(),
{
    if entries.len() == 0 {
        Seq::empty()
    } else {
        rendered(entries.drop_last()) + entry_text(entries.last().0, entries.last().1)
    }
}

/// Where `key_index` points: at the first entry for the address, past all
/// entries where there is none.
pub proof fn lemma_key_index(entries: Entries, address: Address)
    ensures
        0 <= key_index(entries, address) <= entries.len(),
        key_index(entries, address) < entries.len() ==> entries[key_index(entries, address)].0
            == address,
        forall|j: int| 0 <= j < key_index(entries, address) ==> (#[trigger] entries[j]).0 != address,
    decreases entries.len(),
{
    if entries.len() == 0 || entries.first().0 == address {
    } else {
        let rest = entries.drop_first();
        lemma_key_index(rest, address);
        assert forall|j: int| 0 <= j < key_index(entries, address) implies (#[trigger] entries[j]).0
            != address by {
            if j > 0 {
                assert(rest[j - 1] == entries[j]);
            }
        }
    }
}

/// `key_index` is the one position that `lemma_key_index` describes.
pub proof fn lemma_key_index_is(entries: Entries, address: Address, k: int)
    requires
        0 <= k <= entries.len(),
        k < entries.len() ==> entries[k].0 == address,
        forall|j: int| 0 <= j < k ==> (#[trigger] entries[j]).0 != address,
    ensures
        key_index(entries, address) == k,
{
    lemma_key_index(entries, address);
    let found = key_index(entries, address);
    if found < k {
        assert(entries[found].0 != address);
    }
}

/// Recording ports for an address changes the map at that address alone, and
/// keeps the entries valid.
pub proof fn lemma_upsert(entries: Entries, address: Address, ports: Seq<u16>)
    requires
        valid_entries(entries),
        ports.len() > 0,
        ports.no_duplicates(),
    ensures
        valid_entries(upsert(entries, address, ports)),
        as_map(upsert(entries, address, ports)) == as_map(entries).insert(address, ports),
{
    let after = upsert(entries, address, ports);
    let k = key_index(entries, address);
    lemma_key_index(entries, address);
    assert forall|other: Address| key_index(after, other) == (if other == address {
        k
    } else {
        key_index(entries, other) + (if key_index(entries, other) == entries.len() && k
            == entries.len() {
            1int
        } else {
            0int
        })
    }) by {
        lemma_key_index(entries, other);
        let expected = if other == address {
            k
        } else {
            key_index(entries, other) + (if key_index(entries, other) == entries.len() && k
                == entries.len() {
                1int
            } else {
                0int
            })
        };
        assert forall|j: int| 0 <= j < expected implies (#[trigger] after[j]).0 != other by {
            if j < entries.len() && j != k {
                assert(after[j] == entries[j]);
            }
        }
        lemma_key_index_is(after, other, expected);
    }
    assert(as_map(after) =~= as_map(entries).insert(address, ports)) by {
        assert forall|other: Address| #[trigger]
            as_map(after).dom().contains(other) == as_map(entries).insert(
                address,
                ports,
            ).dom().contains(other) by {
            lemma_key_index(entries, other);
        }
        assert forall|other: Address| #[trigger]
            as_map(after).dom().contains(other) implies as_map(after)[other] == as_map(
            entries,
        ).insert(address, ports)[other] by {
            lemma_key_index(entries, other);
        }
    }
    assert forall|i: int, j: int| 0 <= i < j < after.len() implies (#[trigger] after[i]).0 != (
    #[trigger] after[j]).0 by {
        if i < entries.len() && i != k {
            assert(after[i] == entries[i]);
        }
        if j < entries.len() && j != k {
            assert(after[j] == entries[j]);
        }
    }
    assert forall|i: int| 0 <= i < after.len() implies (#[trigger] after[i]).1.len() > 0
        && after[i].1.no_duplicates() by {
        if i < entries.len() && i != k {
            assert(after[i] == entries[i]);
        }
    }
}

/// Merging is last writer wins: the merged map holds for each address what
/// the later map holds for it, and else what the earlier one holds.
pub proof fn lemma_merged(earlier: Entries, later: Entries)
    requires
        valid_entries(earlier),
        valid_entries(later),
    ensures
        valid_entries(merged(earlier, later)),
        as_map(merged(earlier, later)) == as_map(earlier).union_prefer_right(as_map(later)),
    decreases later.len(),
{
    if later.len() == 0 {
        assert(as_map(later) =~= Map::<Address, Seq<u16>>::empty());
        assert(as_map(earlier).union_prefer_right(as_map(later)) =~= as_map(earlier));
    } else {
        let init = later.drop_last();
        let (address, ports) = later.last();
        assert forall|i: int| 0 <= i < init.len() implies #[trigger] init[i] == later[i] by {}
        assert(valid_entries(init));
        lemma_merged(earlier, init);
        lemma_upsert(merged(earlier, init), address, ports);
        assert forall|j: int| 0 <= j < init.len() implies (#[trigger] init[j]).0 != address by {
            assert(init[j] == later[j]);
        }
        lemma_key_index_is(init, address, init.len() as int);
        assert(upsert(init, address, ports) =~= later);
        lemma_upsert(init, address, ports);
        assert(as_map(earlier).union_prefer_right(as_map(init)).insert(address, ports)
            =~= as_map(earlier).union_prefer_right(as_map(init).insert(address, ports)));
    }
}

/// Whether `port` is among `ports`.
pub fn contains_port(ports: &Vec<u16>, port: u16) -> (b: bool)
    ensures
        b == ports@.contains(port),
{
    let mut i: usize = 0;
    while i < ports.len()
        invariant
            i <= ports.len(),
            forall|j: int| 0 <= j < i ==> ports@[j] != port,
        decreases ports.len() - i,
    {
        if ports[i] == port {
            return true;
        }
        i = i + 1;
    }
    false
}

/// The items of `ports`, each once, in the order in which they first occur.
pub fn distinct_ports(ports: &Vec<u16>) -> (r: Vec<u16>)
    ensures
        r@ == distinct(ports@),
{
    let mut r: Vec<u16> = Vec::new();
    let mut i: usize = 0;
    assert(ports@.take(0) =~= Seq::<u16>::empty());
    while i < ports.len()
        invariant
            i <= ports.len(),
            r@ == distinct(ports@.take(i as int)),
        decreases ports.len() - i,
    {
        assert(ports@.take(i + 1).drop_last() =~= ports@.take(i as int));
        if !contains_port(&r, ports[i]) {
            r.push(ports[i]);
        }
        i = i + 1;
    }
    assert(ports@.take(ports.len() as int) =~= ports@);
    r
}

/// Writes port numbers in decimal with `", "` between them at the end of `out`.
pub fn push_joined_ports(out: &mut String, ports: &Vec<u16>)
    ensures
        final(out)@ == old(out)@ + joined_ports(ports@),
{
    let mut i: usize = 0;
    assert(ports@.take(0) =~= Seq::<u16>::empty());
    assert(out@ =~= old(out)@ + joined_ports(ports@.take(0)));
    while i < ports.len()
        invariant
            i <= ports.len(),
            out@ == old(out)@ + joined_ports(ports@.take(i as int)),
        decreases ports.len() - i,
    {
        let ghost before = out@;
        proof {
            reveal_strlit(", ");
            assert(ports@.take(i + 1).drop_last() =~= ports@.take(i as int));
            assert(", "@ =~= seq![',', ' ']);
        }
        if i > 0 {
            out.append(", ");
        }
        push_decimal(out, ports[i] as u32);
        i = i + 1;
        assert(out@ =~= old(out)@ + joined_ports(ports@.take(i as int)));
    }
    assert(ports@.take(ports.len() as int) =~= ports@);
}

/// Writes the two lines of one entry at the end of `out`.
pub fn push_entry_text(out: &mut String, address: Address, ports: &Vec<u16>)
    ensures
        final(out)@ == old(out)@ + entry_text(address, ports@),
{
    let text = address.to_text();
    let len = text.as_str().unicode_len();
    proof {
        reveal_strlit("\n");
        assert("\n"@ =~= seq!['\n']);
    }
    out.append("IP-Address: ");
    out.append(text.as_str());
    if len < ADDRESS_WIDTH {
        push_spaces(out, ADDRESS_WIDTH - len);
    }
    out.append("\n");
    out.append("Open ports: ");
    push_joined_ports(out, ports);
    out.append("\n");
    assert(final(out)@ =~= old(out)@ + entry_text(address, ports@));
}

/// The two lines of one entry.
pub fn render_entry(address: Address, ports: &Vec<u16>) -> (r: String)
    ensures
        r@ == entry_text(address, ports@),
{
    let mut out = String::new();
    push_entry_text(&mut out, address, ports);
    assert(out@ =~= entry_text(address, ports@));
    out
}

/// A copy of `ports`.
fn copy_ports(ports: &Vec<u16>) -> (r: Vec<u16>)
    ensures
        r@ == ports@,
{
    let mut r: Vec<u16> = Vec::new();
    let mut i: usize = 0;
    while i < ports.len()
        invariant
            i <= ports.len(),
            r@ == ports@.take(i as int),
        decreases ports.len() - i,
    {
        r.push(ports[i]);
        i = i + 1;
    }
    assert(ports@.take(ports.len() as int) =~= ports@);
    r
}

/// An address and the ports found open on it.
#[derive(Debug)]
struct PortEntry {
    address: Address,
    ports: Vec<u16>,
}

/// For each address on which a scan found open ports, those ports. An
/// address without open ports has no entry: no entry holds an empty list.
#[derive(Debug)]
pub struct PortResultMap {
    entries: Vec<PortEntry>,
}

impl View for PortResultMap {
    type V = Map<Address, Seq<u16>>;

    /// The map from address to ports.
    open spec fn view(&self) -> Map<Address, Seq<u16>> {
        as_map(self.entries())
    }
}

impl PortResultMap {
    #[verifier::type_invariant]
    spec fn inv(self) -> bool {
        valid_entries(self.entries())
    }

    /// The entries in the order in which their addresses were first recorded.
    pub closed spec fn entries(self) -> Entries {
        Seq::new(
            self.entries@.len(),
            |i: int| (self.entries@[i].address, self.entries@[i].ports@),
        )
    }

    /// A map without entries.
    pub fn new() -> (r: PortResultMap)
        ensures
            r.entries() == Seq::<(Address, Seq<u16>)>::empty(),
            r@ == Map::<Address, Seq<u16>>::empty(),
    {
        let r = PortResultMap { entries: Vec::new() };
        assert(r.entries() =~= Seq::<(Address, Seq<u16>)>::empty());
        assert(r@ =~= Map::<Address, Seq<u16>>::empty());
        r
    }

    /// How many addresses have an entry.
    pub fn len(&self) -> (n: usize)
        ensures
            n == self.entries().len(),
    {
        self.entries.len()
    }

    /// Whether no address has an entry.
    pub fn is_empty(&self) -> (b: bool)
        ensures
            b == (self.entries().len() == 0),
    {
        self.entries.len() == 0
    }

    /// The position of the entry for `address`, or the number of entries.
    fn find(&self, address: Address) -> (k: usize)
        ensures
            k == key_index(self.entries(), address),
            k <= self.entries().len(),
    {
        let ghost entries = self.entries();
        let mut k: usize = 0;
        assert(entries.skip(0) =~= entries);
        while k < self.entries.len() && self.entries[k].address != address
            invariant
                entries == self.entries(),
                k <= self.entries.len(),
                key_index(entries, address) == k + key_index(entries.skip(k as int), address),
            decreases self.entries.len() - k,
        {
            assert(entries.skip(k as int).drop_first() =~= entries.skip(k + 1));
            k = k + 1;
        }
        k
    }

    /// Whether `address` has an entry.
    pub fn contains_key(&self, address: Address) -> (b: bool)
        ensures
            b == self@.contains_key(address),
    {
        self.find(address) < self.entries.len()
    }

    /// The ports recorded for `address`, where it has an entry. They are at
    /// least one, and none stands twice.
    pub fn get(&self, address: Address) -> (r: Option<Vec<u16>>)
        ensures
            r is Some <==> self@.contains_key(address),
            r matches Some(ports) ==> ports@ == self@[address] && ports@.len() > 0
                && ports@.no_duplicates(),
    {
        proof {
            use_type_invariant(self);
        }
        let k = self.find(address);
        if k < self.entries.len() {
            assert(self.entries()[k as int].1 == self.entries@[k as int].ports@);
            Some(copy_ports(&self.entries[k].ports))
        } else {
            None
        }
    }

    /// The addresses that have an entry, in the order of the entries.
    pub fn addresses(&self) -> (r: Vec<Address>)
        ensures
            r@.len() == self.entries().len(),
            forall|i: int| 0 <= i < r@.len() ==> r@[i] == (#[trigger] self.entries()[i]).0,
    {
        let mut r: Vec<Address> = Vec::new();
        let mut i: usize = 0;
        while i < self.entries.len()
            invariant
                i <= self.entries.len(),
                r@.len() == i,
                forall|j: int| 0 <= j < i ==> r@[j] == (#[trigger] self.entries()[j]).0,
            decreases self.entries.len() - i,
        {
            r.push(self.entries[i].address);
            i = i + 1;
        }
        r
    }

    /// Records the ports of `open`, each once, as what was found on
    /// `address`, in place of what was recorded for it before. Where `open`
    /// is empty nothing is recorded and the map stays as it is.
    pub fn record(&mut self, address: Address, open: &Vec<u16>)
        ensures
            final(self).entries() == (if open@.len() == 0 {
                old(self).entries()
            } else {
                upsert(old(self).entries(), address, distinct(open@))
            }),
            final(self)@ == (if open@.len() == 0 {
                old(self)@
            } else {
                old(self)@.insert(address, distinct(open@))
            }),
            valid_entries(final(self).entries()),
    {
        proof {
            use_type_invariant(&*self);
        }
        if open.len() == 0 {
            return ;
        }
        let ports = distinct_ports(open);
        proof {
            lemma_distinct(open@);
            lemma_upsert(self.entries(), address, ports@);
        }
        let k = self.find(address);
        let mut entries: Vec<PortEntry> = Vec::new();
        core::mem::swap(&mut self.entries, &mut entries);
        if k < entries.len() {
            entries.set(k, PortEntry { address, ports });
        } else {
            entries.push(PortEntry { address, ports });
        }
        proof {
            let after = Seq::new(entries@.len(), |i: int| (entries@[i].address, entries@[i].ports@));
            assert(after =~= upsert(old(self).entries(), address, distinct(open@)));
        }
        self.entries = entries;
        assert(self.entries() =~= upsert(old(self).entries(), address, distinct(open@)));
    }

    /// Merges the entries of `later` into this map. Where both hold an entry
    /// for an address, that of `later` stays.
    pub fn merge(&mut self, later: &PortResultMap)
        ensures
            final(self).entries() == merged(old(self).entries(), later.entries()),
            final(self)@ == old(self)@.union_prefer_right(later@),
            valid_entries(final(self).entries()),
    {
        proof {
            use_type_invariant(&*self);
            use_type_invariant(later);
        }
        let mut i: usize = 0;
        assert(later.entries().take(0) =~= Seq::<(Address, Seq<u16>)>::empty());
        while i < later.entries.len()
            invariant
                i <= later.entries.len(),
                valid_entries(later.entries()),
                valid_entries(self.entries()),
                self.entries() == merged(old(self).entries(), later.entries().take(i as int)),
            decreases later.entries.len() - i,
        {
            let ghost entry = later.entries()[i as int];
            proof {
                assert(later.entries().take(i + 1).drop_last() =~= later.entries().take(i as int));
                assert(later.entries().take(i + 1).last() == entry);
                assert(entry.1 == later.entries@[i as int].ports@);
                assert(entry.1.len() > 0 && entry.1.no_duplicates());
                lemma_distinct_of_distinct(entry.1);
            }
            self.record(later.entries[i].address, &later.entries[i].ports);
            i = i + 1;
        }
        proof {
            assert(later.entries().take(later.entries.len() as int) =~= later.entries());
            lemma_merged(old(self).entries(), later.entries());
        }
    }

    /// The lines that report the entries, two for each.
    pub fn render(&self) -> (r: String)
        ensures
            r@ == rendered(self.entries()),
    {
        let mut out = String::new();
        let mut i: usize = 0;
        assert(self.entries().take(0) =~= Seq::<(Address, Seq<u16>)>::empty());
        assert(out@ =~= rendered(self.entries().take(0)));
        while i < self.entries.len()
            invariant
                i <= self.entries.len(),
                out@ == rendered(self.entries().take(i as int)),
            decreases self.entries.len() - i,
        {
            proof {
                assert(self.entries().take(i + 1).drop_last() =~= self.entries().take(i as int));
                assert(self.entries().take(i + 1).last() == self.entries()[i as int]);
            }
            push_entry_text(&mut out, self.entries[i].address, &self.entries[i].ports);
            i = i + 1;
        }
        assert(self.entries().take(self.entries.len() as int) =~= self.entries());
        out
    }
}

} // verus!

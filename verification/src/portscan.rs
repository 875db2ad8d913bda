//! Port scans of one target: which ports are probed, and what the outcomes
//! of the probes amount to.

use vstd::prelude::*;
use crate::address::Address;
use crate::catalog::{all_ports, catalog_ports};
use crate::error::{BarrierError, PortRangeError};
use crate::distinct::{distinct, lemma_distinct};
use crate::results::{
    Entries, PortResultMap, as_map, key_index, lemma_key_index, lemma_key_index_is, valid_entries,
};
use crate::text::{chars_of, parse_u16, read_u16, split, split_on, text_views};

verus! {

/// A range of ports, from the first number to the second, both included.
#[derive(Clone, Copy, Debug, PartialEq, Eq, Structural)]
pub struct PortRange(pub u16, pub u16);

/// The range that a text of the form `start-end` writes, or why it writes
/// none: not exactly one `-`, or a part that is no 16-bit number.
pub open spec fn parse_port_range(s: Seq<char>) -> Result<PortRange, PortRangeError> {
    let parts = split(s, '-');
    if parts.len() != 2 {
        Err(PortRangeError::InvalidFormat)
    } else if parse_u16(parts[0]) is None {
        Err(PortRangeError::InvalidStartPort)
    } else if parse_u16(parts[1]) is None {
        Err(PortRangeError::InvalidEndPort)
    } else {
        Ok(PortRange(parse_u16(parts[0])->0, parse_u16(parts[1])->0))
    }
}

/// The ports from `start` to `end`, both included, in ascending order. None
/// where `start` is above `end`.
pub open spec fn range_ports(start: u16, end: u16) -> Seq<u16> {
    if start > end {
        Seq::empty()
    } else {
        Seq::new((end - start + 1) as nat, |i: int| (start + i) as u16)
    }
}

impl PortRange {
    /// The ports of the range, in ascending order.
    pub open spec fn ports(self) -> Seq<u16> {
        range_ports(self.0, self.1)
    }

    /// Reads a range written as `start-end`.
    pub fn from_str(s: &str) -> (r: Result<PortRange, PortRangeError>)
        ensures
            r == parse_port_range(s@),
    {
        let v = chars_of(s);
        let parts = split_on(&v, '-');
        if parts.len() != 2 {
            return Err(PortRangeError::InvalidFormat);
        }
        assert(text_views(parts@)[0] == parts[0]@);
        assert(text_views(parts@)[1] == parts[1]@);
        let start = match read_u16(&parts[0]) {
            Some(port) => port,
            None => {
                return Err(PortRangeError::InvalidStartPort);
            },
        };
        let end = match read_u16(&parts[1]) {
            Some(port) => port,
            None => {
                return Err(PortRangeError::InvalidEndPort);
            },
        };
        Ok(PortRange(start, end))
    }

    /// The ports of the range, in ascending order.
    pub fn to_ports(&self) -> (v: Vec<u16>)
        ensures
            v@ == self.ports(),
    {
        let mut v: Vec<u16> = Vec::new();
        if self.0 > self.1 {
            return v;
        }
        let mut port: u16 = self.0;
        loop
            invariant_except_break
                self.0 <= port <= self.1,
                v@ == range_ports(self.0, port).drop_last(),
            ensures
                v@ == range_ports(self.0, self.1),
            decreases self.1 - port,
        {
            v.push(port);
            assert(v@ =~= range_ports(self.0, port));
            if port == self.1 {
                break ;
            }
            port = port + 1;
            assert(v@ =~= range_ports(self.0, port).drop_last());
        }
        v
    }
}

/// How the probe of one port ended.
#[derive(Clone, Copy, Debug, PartialEq, Eq, Structural)]
pub enum ConnectOutcome {
    /// A connection was made in time.
    Open,
    /// The time ran out, or the connection was refused or could not be made.
    Closed,
    /// The probe itself broke down. The port counts as closed.
    Failed,
}

/// How long an attempt to connect to a port may take, in milliseconds.
pub const CONNECT_TIMEOUT_MILLIS: u64 = 100;

/// How one attempt to connect to a port ended.
#[derive(Clone, Copy, Debug, PartialEq, Eq, Structural)]
pub enum ConnectAttempt {
    /// The connection was made before the time ran out.
    Established,
    /// The attempt ended with an error before the time ran out: the
    /// connection was refused, the host could not be reached, or the like.
    Errored,
    /// The time ran out.
    TimedOut,
}

impl ConnectOutcome {
    /// The outcome of a probe, from how its attempt ended; `None` stands for
    /// a probe that broke down and has no attempt to show. Only a connection
    /// that was made counts as open.
    pub open spec fn of(attempt: Option<ConnectAttempt>) -> ConnectOutcome {
        match attempt {
            Some(ConnectAttempt::Established) => ConnectOutcome::Open,
            Some(ConnectAttempt::Errored) => ConnectOutcome::Closed,
            Some(ConnectAttempt::TimedOut) => ConnectOutcome::Closed,
            None => ConnectOutcome::Failed,
        }
    }

    /// The outcome of a probe, from how its attempt ended.
    pub fn classify(attempt: Option<ConnectAttempt>) -> (outcome: ConnectOutcome)
        ensures
            outcome == ConnectOutcome::of(attempt),
    {
        match attempt {
            Some(ConnectAttempt::Established) => ConnectOutcome::Open,
            Some(ConnectAttempt::Errored) => ConnectOutcome::Closed,
            Some(ConnectAttempt::TimedOut) => ConnectOutcome::Closed,
            None => ConnectOutcome::Failed,
        }
    }
}

/// The ports of `plan` whose probe found them open, in the order of the plan.
/// The outcome at a position belongs to the port at that position.
pub open spec fn found_open(plan: Seq<u16>, outcomes: Seq<ConnectOutcome>) -> Seq<u16>
    decreases plan.len(),
{
    if plan.len() == 0 {
        Seq::empty()
    } else {
        let before = found_open(plan.drop_last(), outcomes);
        if outcomes[plan.len() - 1] == ConnectOutcome::Open {
            before.push(plan.last())
        } else {
            before
        }
    }
}

/// The entries that a scan of `target` gives: one entry with the open ports,
/// each once, or no entry at all where no port was found open.
pub open spec fn scan_entries(
    target: Address,
    plan: Seq<u16>,
    outcomes: Seq<ConnectOutcome>,
) -> Entries {
    if found_open(plan, outcomes).len() == 0 {
        Seq::empty()
    } else {
        seq![(target, distinct(found_open(plan, outcomes)))]
    }
}

/// A port is among those found open exactly if the plan holds it at a
/// position whose probe found it open.
pub proof fn lemma_found_open(plan: Seq<u16>, outcomes: Seq<ConnectOutcome>)
    requires
        outcomes.len() == plan.len(),
    ensures
        forall|port: u16|
            found_open(plan, outcomes).contains(port) <==> exists|i: int|
                0 <= i < plan.len() && plan[i] == port && #[trigger] outcomes[i]
                    == ConnectOutcome::Open,
    decreases plan.len(),
{
    if plan.len() > 0 {
        let init = plan.drop_last();
        let last = plan.len() - 1;
        let before = found_open(init, outcomes);
        lemma_found_open_ignores_rest(init, outcomes, outcomes.take(last));
        lemma_found_open(init, outcomes.take(last));
        assert forall|port: u16|
            found_open(plan, outcomes).contains(port) <==> exists|i: int|
                0 <= i < plan.len() && plan[i] == port && #[trigger] outcomes[i]
                    == ConnectOutcome::Open by {
            let now = found_open(plan, outcomes);
            if now.contains(port) {
                let j = choose|j: int| 0 <= j < now.len() && now[j] == port;
                if j < before.len() {
                    assert(before[j] == port);
                    assert(before.contains(port));
                    let i = choose|i: int|
                        0 <= i < init.len() && init[i] == port && #[trigger] outcomes.take(last)[i]
                            == ConnectOutcome::Open;
                    assert(plan[i] == port && outcomes[i] == ConnectOutcome::Open);
                } else {
                    assert(plan[last] == port && outcomes[last] == ConnectOutcome::Open);
                }
            }
            if exists|i: int|
                0 <= i < plan.len() && plan[i] == port && #[trigger] outcomes[i]
                    == ConnectOutcome::Open {
                let i = choose|i: int|
                    0 <= i < plan.len() && plan[i] == port && #[trigger] outcomes[i]
                        == ConnectOutcome::Open;
                if i < last {
                    assert(init[i] == port && outcomes.take(last)[i] == ConnectOutcome::Open);
                    assert(before.contains(port));
                    let j = choose|j: int| 0 <= j < before.len() && before[j] == port;
                    assert(now[j] == port);
                } else {
                    assert(now[now.len() - 1] == port);
                }
            }
        }
    }
}

/// Only the outcomes at the positions of the plan count.
proof fn lemma_found_open_ignores_rest(
    plan: Seq<u16>,
    outcomes: Seq<ConnectOutcome>,
    others: Seq<ConnectOutcome>,
)
    requires
        plan.len() <= outcomes.len(),
        plan.len() <= others.len(),
        forall|i: int| 0 <= i < plan.len() ==> outcomes[i] == others[i],
    ensures
        found_open(plan, outcomes) == found_open(plan, others),
    decreases plan.len(),
{
    if plan.len() > 0 {
        lemma_found_open_ignores_rest(plan.drop_last(), outcomes, others);
    }
}

/// What a scan reports. The open ports of the target are those that the plan
/// holds at a position whose probe found it open, and no others; and the
/// target has an entry exactly if there is such a port.
pub proof fn lemma_scan_entries(target: Address, plan: Seq<u16>, outcomes: Seq<ConnectOutcome>)
    requires
        outcomes.len() == plan.len(),
    ensures
        forall|address: Address|
            as_map(scan_entries(target, plan, outcomes)).contains_key(address)
                <==> address == target && exists|i: int|
                0 <= i < plan.len() && #[trigger] outcomes[i] == ConnectOutcome::Open,
        as_map(scan_entries(target, plan, outcomes)).contains_key(target)
            ==> forall|port: u16|
            as_map(scan_entries(target, plan, outcomes))[target].contains(port)
                <==> exists|i: int|
                0 <= i < plan.len() && plan[i] == port && #[trigger] outcomes[i]
                    == ConnectOutcome::Open,
        valid_entries(scan_entries(target, plan, outcomes)),
{
    let open = found_open(plan, outcomes);
    let entries = scan_entries(target, plan, outcomes);
    lemma_found_open(plan, outcomes);
    lemma_distinct(open);
    if open.len() == 0 {
        assert forall|i: int| 0 <= i < plan.len() implies #[trigger] outcomes[i]
            != ConnectOutcome::Open by {
            if outcomes[i] == ConnectOutcome::Open {
                assert(open.contains(plan[i]));
            }
        }
    } else {
        assert(open.contains(open[0]));
        assert(entries.drop_first() =~= Seq::<(Address, Seq<u16>)>::empty());
        assert forall|address: Address|
            key_index(entries, address) == (if address == target {
                0int
            } else {
                1int
            }) by {
            lemma_key_index(entries, address);
        }
        assert(as_map(entries)[target] == distinct(open));
        assert forall|port: u16|
            distinct(open).contains(port) <==> exists|i: int|
                0 <= i < plan.len() && plan[i] == port && #[trigger] outcomes[i]
                    == ConnectOutcome::Open by {
            assert(distinct(open).contains(port) <==> open.contains(port));
        }
    }
}

/// A scan of one target: the ports to probe, in the order in which their
/// outcomes are handed back.
#[derive(Debug)]
pub struct PortScan {
    target: Address,
    ports: Vec<u16>,
}

impl PortScan {
    /// The address whose ports are probed.
    pub closed spec fn target(self) -> Address {
        self.target
    }

    /// The ports that are probed, one probe for each position.
    pub closed spec fn plan(self) -> Seq<u16> {
        self.ports@
    }

    /// A scan of the whole catalog on `target`: one probe for each port of
    /// the catalog, as often as the port stands in it.
    pub fn catalog(target: Address) -> (scan: PortScan)
        ensures
            scan.target() == target,
            scan.plan() == catalog_ports(),
    {
        PortScan { target, ports: all_ports() }
    }

    /// A scan of the ports from `start` to `end`, both included, on `target`.
    /// It probes nothing where `start` is above `end`.
    pub fn range(target: Address, start: u16, end: u16) -> (scan: PortScan)
        ensures
            scan.target() == target,
            scan.plan() == range_ports(start, end),
    {
        PortScan { target, ports: PortRange(start, end).to_ports() }
    }

    /// The address whose ports are probed.
    pub fn target_address(&self) -> (a: Address)
        ensures
            a == self.target(),
    {
        self.target
    }

    /// The ports that are probed.
    pub fn ports(&self) -> (v: &Vec<u16>)
        ensures
            v@ == self.plan(),
    {
        &self.ports
    }

    /// Puts the outcomes of the probes together, the outcome at a position
    /// being that of the port at the same position of the plan. The target
    /// gets an entry with the ports found open, each once, or none where no
    /// port was found open. Refused where the outcomes are not one for each
    /// probe.
    pub fn assemble(&self, outcomes: &Vec<ConnectOutcome>) -> (r: Result<
        PortResultMap,
        BarrierError,
    >)
        ensures
            r is Ok <==> outcomes@.len() == self.plan().len(),
            r matches Ok(map) ==> map.entries() == scan_entries(
                self.target(),
                self.plan(),
                outcomes@,
            ),
            r matches Err(e) ==> e == BarrierError::OutcomeCountMismatch,
    {
        if outcomes.len() != self.ports.len() {
            return Err(BarrierError::OutcomeCountMismatch);
        }
        let mut open: Vec<u16> = Vec::new();
        let mut i: usize = 0;
        assert(self.ports@.take(0) =~= Seq::<u16>::empty());
        while i < self.ports.len()
            invariant
                i <= self.ports.len(),
                outcomes.len() == self.ports.len(),
                open@ == found_open(self.ports@.take(i as int), outcomes@),
            decreases self.ports.len() - i,
        {
            assert(self.ports@.take(i + 1).drop_last() =~= self.ports@.take(i as int));
            match outcomes[i] {
                ConnectOutcome::Open => {
                    open.push(self.ports[i]);
                },
                ConnectOutcome::Closed => {},
                ConnectOutcome::Failed => {},
            }
            i = i + 1;
        }
        assert(self.ports@.take(self.ports.len() as int) =~= self.ports@);
        let mut map = PortResultMap::new();
        map.record(self.target, &open);
        proof {
            if open@.len() > 0 {
                lemma_key_index_is(Seq::<(Address, Seq<u16>)>::empty(), self.target, 0);
                assert(map.entries() =~= scan_entries(self.target(), self.plan(), outcomes@));
            }
        }
        Ok(map)
    }
}

} // verus!

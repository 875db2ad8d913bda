//! The menu of scans: one choice is read, then the inputs that the choice
//! asks for, and the scans to run come out. No input or output happens here;
//! a caller hands in each line that was typed and acts on what comes back.

use vstd::prelude::*;
use crate::address::{Address, parse_address};
use crate::catalog::catalog_ports;
use crate::error::InputParseError;
use crate::portscan::{PortScan, range_ports};
use crate::text::{chars_of, parse_i32, parse_u16, read_i32, read_u16, trim, trimmed};

verus! {

/// The four scans of the menu, in the order of their numbers, from 1 to 4.
#[derive(Clone, Copy, Debug, PartialEq, Eq, Structural)]
pub enum Action {
    /// The catalog ports on every discovered host.
    CatalogOnAll,
    /// The catalog ports on one host that the operator names.
    CatalogOnOne,
    /// A range of ports that the operator gives, on every discovered host.
    RangeOnAll,
    /// A range of ports that the operator gives, on one host that the
    /// operator names.
    RangeOnOne,
}

/// The hosts that a scan runs on.
#[derive(Clone, Copy, Debug, PartialEq, Eq, Structural)]
pub enum Scope {
    /// Every discovered host.
    AllHosts,
    /// This host alone.
    Host(Address),
}

/// The ports that a scan probes.
#[derive(Clone, Copy, Debug, PartialEq, Eq, Structural)]
pub enum Selection {
    /// The ports of the catalog.
    Catalog,
    /// The ports from the first number to the second, both included.
    Range(u16, u16),
}

/// A scan that the operator has asked for, with all its inputs read.
#[derive(Clone, Copy, Debug, PartialEq, Eq, Structural)]
pub struct Command {
    pub scope: Scope,
    pub selection: Selection,
}

/// What the dispatcher waits for.
#[derive(Clone, Copy, Debug, PartialEq, Eq, Structural)]
pub enum Stage {
    /// The number of a scan.
    AwaitingChoice,
    /// The address of the host to scan. The flag says whether a range of
    /// ports is asked for after it.
    AwaitingTarget { with_range: bool },
    /// The first port of the range.
    AwaitingStartPort { scope: Scope },
    /// The last port of the range.
    AwaitingEndPort { scope: Scope, start: u16 },
    /// Nothing more: a command was given out, or an input was refused.
    Done,
}

/// An input that the dispatcher asks for after the choice.
#[derive(Clone, Copy, Debug, PartialEq, Eq, Structural)]
pub enum Prompt {
    /// The address of the host to scan.
    Target,
    /// The first port of the range.
    StartPort,
    /// The last port of the range.
    EndPort,
}

/// What the dispatcher answers to a line.
#[derive(Clone, Copy, Debug, PartialEq, Eq, Structural)]
pub enum Reaction {
    /// The line named no scan. The choice is asked for again, and nothing
    /// else has happened.
    InvalidChoice,
    /// The line was taken. This input is asked for next.
    Ask(Prompt),
    /// All inputs are read. This is the scan to run.
    Run(Command),
    /// The line could not be read as what was asked for. The dispatcher gives
    /// up.
    Abort(InputParseError),
    /// The dispatcher was done before the line came. The line is ignored.
    Finished,
}

/// The scan that a line names: the line, without the white space around it,
/// is a number from 1 to 4.
pub open spec fn choice_of(line: Seq<char>) -> Option<Action> {
    match parse_i32(trimmed(line)) {
        Some(n) => if n == 1 {
            Some(Action::CatalogOnAll)
        } else if n == 2 {
            Some(Action::CatalogOnOne)
        } else if n == 3 {
            Some(Action::RangeOnAll)
        } else if n == 4 {
            Some(Action::RangeOnOne)
        } else {
            None
        },
        None => None,
    }
}

/// The stage after a line, and the reaction to it.
pub open spec fn step_of(stage: Stage, line: Seq<char>) -> (Stage, Reaction) {
    match stage {
        Stage::AwaitingChoice => match choice_of(line) {
            None => (Stage::AwaitingChoice, Reaction::InvalidChoice),
            Some(Action::CatalogOnAll) => (
                Stage::Done,
                Reaction::Run(Command { scope: Scope::AllHosts, selection: Selection::Catalog }),
            ),
            Some(Action::CatalogOnOne) => (
                Stage::AwaitingTarget { with_range: false },
                Reaction::Ask(Prompt::Target),
            ),
            Some(Action::RangeOnAll) => (
                Stage::AwaitingStartPort { scope: Scope::AllHosts },
                Reaction::Ask(Prompt::StartPort),
            ),
            Some(Action::RangeOnOne) => (
                Stage::AwaitingTarget { with_range: true },
                Reaction::Ask(Prompt::Target),
            ),
        },
        Stage::AwaitingTarget { with_range } => match parse_address(trimmed(line)) {
            None => (Stage::Done, Reaction::Abort(InputParseError::InvalidAddress)),
            Some(host) => if with_range {
                (
                    Stage::AwaitingStartPort { scope: Scope::Host(host) },
                    Reaction::Ask(Prompt::StartPort),
                )
            } else {
                (
                    Stage::Done,
                    Reaction::Run(
                        Command { scope: Scope::Host(host), selection: Selection::Catalog },
                    ),
                )
            },
        },
        Stage::AwaitingStartPort { scope } => match parse_u16(trimmed(line)) {
            None => (Stage::Done, Reaction::Abort(InputParseError::InvalidStartPort)),
            Some(start) => (Stage::AwaitingEndPort { scope, start }, Reaction::Ask(Prompt::EndPort)),
        },
        Stage::AwaitingEndPort { scope, start } => match parse_u16(trimmed(line)) {
            None => (Stage::Done, Reaction::Abort(InputParseError::InvalidEndPort)),
            Some(end) => (
                Stage::Done,
                Reaction::Run(Command { scope, selection: Selection::Range(start, end) }),
            ),
        },
        Stage::Done => (Stage::Done, Reaction::Finished),
    }
}

/// Reads the number of a scan.
pub fn read_choice(line: &str) -> (r: Option<Action>)
    ensures
        r == choice_of(line@),
{
    let text = trim(&chars_of(line));
    match read_i32(&text) {
        Some(1) => Some(Action::CatalogOnAll),
        Some(2) => Some(Action::CatalogOnOne),
        Some(3) => Some(Action::RangeOnAll),
        Some(4) => Some(Action::RangeOnOne),
        _ => None,
    }
}

impl Selection {
    /// The ports that are probed, in the order of the probes.
    pub open spec fn ports(self) -> Seq<u16> {
        match self {
            Selection::Catalog => catalog_ports(),
            Selection::Range(start, end) => range_ports(start, end),
        }
    }
}

impl Command {
    /// The targets of the scans that the command asks for, given the hosts
    /// that the discovery found: each of them in turn, or the one host that
    /// was named.
    pub open spec fn targets(self, hosts: Seq<Address>) -> Seq<Address> {
        match self.scope {
            Scope::AllHosts => hosts,
            Scope::Host(host) => seq![host],
        }
    }

    /// One scan with the ports of the command on `target`.
    pub fn scan_of(&self, target: Address) -> (scan: PortScan)
        ensures
            scan.target() == target,
            scan.plan() == self.selection.ports(),
    {
        match self.selection {
            Selection::Catalog => PortScan::catalog(target),
            Selection::Range(start, end) => PortScan::range(target, start, end),
        }
    }

    /// The scans that the command asks for, given the hosts that the
    /// discovery found: one for each of its targets, in their order, each
    /// with the ports of the command.
    pub fn scans(&self, hosts: &Vec<Address>) -> (scans: Vec<PortScan>)
        ensures
            scans@.len() == self.targets(hosts@).len(),
            forall|i: int|
                0 <= i < scans@.len() ==> (#[trigger] scans@[i]).target() == self.targets(hosts@)[i]
                    && scans@[i].plan() == self.selection.ports(),
    {
        let mut scans: Vec<PortScan> = Vec::new();
        match self.scope {
            Scope::AllHosts => {
                let mut i: usize = 0;
                while i < hosts.len()
                    invariant
                        i <= hosts.len(),
                        scans@.len() == i,
                        forall|j: int|
                            0 <= j < i ==> (#[trigger] scans@[j]).target() == hosts@[j]
                                && scans@[j].plan() == self.selection.ports(),
                    decreases hosts.len() - i,
                {
                    scans.push(self.scan_of(hosts[i]));
                    i = i + 1;
                }
            },
            Scope::Host(host) => {
                scans.push(self.scan_of(host));
            },
        }
        scans
    }
}

/// The dispatcher of the menu. It starts by waiting for a choice, takes one
/// line at a time, and is done once it has given out a command or refused an
/// input. It does not go back to the choice after a command.
#[derive(Clone, Copy, Debug)]
pub struct ActionDispatcher {
    stage: Stage,
}

impl ActionDispatcher {
    /// What the dispatcher waits for.
    pub closed spec fn stage(self) -> Stage {
        self.stage
    }

    /// A dispatcher that waits for a choice.
    pub fn new() -> (d: ActionDispatcher)
        ensures
            d.stage() == Stage::AwaitingChoice,
    {
        ActionDispatcher { stage: Stage::AwaitingChoice }
    }

    /// What the dispatcher waits for.
    pub fn current_stage(&self) -> (stage: Stage)
        ensures
            stage == self.stage(),
    {
        self.stage
    }

    /// Whether the dispatcher takes no more lines.
    pub fn is_done(&self) -> (b: bool)
        ensures
            b == (self.stage() == Stage::Done),
    {
        match self.stage {
            Stage::Done => true,
            _ => false,
        }
    }

    /// Takes the next line that the operator typed.
    pub fn step(&mut self, line: &str) -> (reaction: Reaction)
        ensures
            (final(self).stage(), reaction) == step_of(old(self).stage(), line@),
    {
        let (stage, reaction) = match self.stage {
            Stage::AwaitingChoice => match read_choice(line) {
                None => (Stage::AwaitingChoice, Reaction::InvalidChoice),
                Some(Action::CatalogOnAll) => (
                    Stage::Done,
                    Reaction::Run(
                        Command { scope: Scope::AllHosts, selection: Selection::Catalog },
                    ),
                ),
                Some(Action::CatalogOnOne) => (
                    Stage::AwaitingTarget { with_range: false },
                    Reaction::Ask(Prompt::Target),
                ),
                Some(Action::RangeOnAll) => (
                    Stage::AwaitingStartPort { scope: Scope::AllHosts },
                    Reaction::Ask(Prompt::StartPort),
                ),
                Some(Action::RangeOnOne) => (
                    Stage::AwaitingTarget { with_range: true },
                    Reaction::Ask(Prompt::Target),
                ),
            },
            Stage::AwaitingTarget { with_range } => {
                let text = trim(&chars_of(line));
                match Address::from_chars(&text) {
                    None => (Stage::Done, Reaction::Abort(InputParseError::InvalidAddress)),
                    Some(host) => if with_range {
                        (
                            Stage::AwaitingStartPort { scope: Scope::Host(host) },
                            Reaction::Ask(Prompt::StartPort),
                        )
                    } else {
                        (
                            Stage::Done,
                            Reaction::Run(
                                Command { scope: Scope::Host(host), selection: Selection::Catalog },
                            ),
                        )
                    },
                }
            },
            Stage::AwaitingStartPort { scope } => {
                let text = trim(&chars_of(line));
                match read_u16(&text) {
                    None => (Stage::Done, Reaction::Abort(InputParseError::InvalidStartPort)),
                    Some(start) => (
                        Stage::AwaitingEndPort { scope, start },
                        Reaction::Ask(Prompt::EndPort),
                    ),
                }
            },
            Stage::AwaitingEndPort { scope, start } => {
                let text = trim(&chars_of(line));
                match read_u16(&text) {
                    None => (Stage::Done, Reaction::Abort(InputParseError::InvalidEndPort)),
                    Some(end) => (
                        Stage::Done,
                        Reaction::Run(Command { scope, selection: Selection::Range(start, end) }),
                    ),
                }
            },
            Stage::Done => (Stage::Done, Reaction::Finished),
        };
        self.stage = stage;
        reaction
    }
}

/// A line that names no scan changes nothing: the dispatcher still waits for
/// a choice, and no command comes out.
pub proof fn lemma_invalid_choice_changes_nothing(line: Seq<char>)
    requires
        choice_of(line) is None,
    ensures
        step_of(Stage::AwaitingChoice, line) == (Stage::AwaitingChoice, Reaction::InvalidChoice),
{
}

/// A command comes out with the last input that its choice asks for, and
/// the dispatcher is done from then on.
pub proof fn lemma_command_ends_dispatch(stage: Stage, line: Seq<char>)
    ensures
        step_of(stage, line).1 is Run || step_of(stage, line).1 is Abort ==> step_of(stage, line).0
            == Stage::Done,
        step_of(stage, line).0 == Stage::Done ==> forall|next: Seq<char>|
            #[trigger] step_of(step_of(stage, line).0, next) == (Stage::Done, Reaction::Finished),
{
}

} // verus!

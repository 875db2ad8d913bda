use netsweep::address::Address;
use netsweep::catalog::all_ports;
use netsweep::dispatch::{
    read_choice, Action, ActionDispatcher, Command, Prompt, Reaction, Scope, Selection, Stage,
};
use netsweep::error::InputParseError;

fn ip(a: u8, b: u8, c: u8, d: u8) -> Address {
    Address::from_octets(a, b, c, d)
}

#[test]
fn invalid_choices_ask_again_and_a_valid_one_proceeds() {
    let mut dispatcher = ActionDispatcher::new();
    for line in ["7", "abc", ""] {
        assert_eq!(dispatcher.step(line), Reaction::InvalidChoice);
        assert_eq!(dispatcher.current_stage(), Stage::AwaitingChoice);
        assert!(!dispatcher.is_done());
    }
    assert_eq!(dispatcher.step("2"), Reaction::Ask(Prompt::Target));
    assert_eq!(dispatcher.current_stage(), Stage::AwaitingTarget { with_range: false });
    assert_eq!(
        dispatcher.step("10.0.0.9\n"),
        Reaction::Run(Command { scope: Scope::Host(ip(10, 0, 0, 9)), selection: Selection::Catalog })
    );
    assert!(dispatcher.is_done());
}

#[test]
fn choice_is_a_number_from_one_to_four() {
    assert_eq!(read_choice("1"), Some(Action::CatalogOnAll));
    assert_eq!(read_choice("2\n"), Some(Action::CatalogOnOne));
    assert_eq!(read_choice("  3  "), Some(Action::RangeOnAll));
    assert_eq!(read_choice("4\r\n"), Some(Action::RangeOnOne));
    assert_eq!(read_choice("+4"), Some(Action::RangeOnOne));
    assert_eq!(read_choice("004"), Some(Action::RangeOnOne));
    for line in ["0", "5", "7", "-1", "abc", "", "\n", "1 2", "1.0", "4294967297", "one", "１"] {
        assert_eq!(read_choice(line), None, "{:?}", line);
    }
}

#[test]
fn first_choice_runs_the_catalog_on_all_hosts_at_once() {
    let mut dispatcher = ActionDispatcher::new();
    let reaction = dispatcher.step("1\n");
    let command = Command { scope: Scope::AllHosts, selection: Selection::Catalog };
    assert_eq!(reaction, Reaction::Run(command));
    assert_eq!(dispatcher.current_stage(), Stage::Done);
    let hosts = vec![ip(10, 0, 0, 1), ip(10, 0, 0, 3)];
    let scans = command.scans(&hosts);
    assert_eq!(scans.len(), 2);
    assert_eq!(scans[0].target_address(), ip(10, 0, 0, 1));
    assert_eq!(scans[1].target_address(), ip(10, 0, 0, 3));
    assert_eq!(*scans[0].ports(), all_ports());
    assert_eq!(*scans[1].ports(), all_ports());
    assert!(command.scans(&Vec::new()).is_empty());
}

#[test]
fn third_choice_reads_a_range_for_all_hosts() {
    let mut dispatcher = ActionDispatcher::new();
    assert_eq!(dispatcher.step("3"), Reaction::Ask(Prompt::StartPort));
    assert_eq!(dispatcher.current_stage(), Stage::AwaitingStartPort { scope: Scope::AllHosts });
    assert_eq!(dispatcher.step(" 20\n"), Reaction::Ask(Prompt::EndPort));
    assert_eq!(
        dispatcher.current_stage(),
        Stage::AwaitingEndPort { scope: Scope::AllHosts, start: 20 }
    );
    let command = Command { scope: Scope::AllHosts, selection: Selection::Range(20, 22) };
    assert_eq!(dispatcher.step("22\n"), Reaction::Run(command));
    assert!(dispatcher.is_done());
    let scans = command.scans(&vec![ip(10, 0, 0, 1), ip(10, 0, 0, 3), ip(10, 0, 0, 4)]);
    assert_eq!(scans.len(), 3);
    for scan in &scans {
        assert_eq!(*scan.ports(), vec![20, 21, 22]);
    }
    assert_eq!(scans[2].target_address(), ip(10, 0, 0, 4));
}

#[test]
fn fourth_choice_reads_a_host_and_then_a_range() {
    let mut dispatcher = ActionDispatcher::new();
    assert_eq!(dispatcher.step("4"), Reaction::Ask(Prompt::Target));
    assert_eq!(dispatcher.current_stage(), Stage::AwaitingTarget { with_range: true });
    assert_eq!(dispatcher.step("192.168.1.10\n"), Reaction::Ask(Prompt::StartPort));
    assert_eq!(dispatcher.step("1\n"), Reaction::Ask(Prompt::EndPort));
    let command =
        Command { scope: Scope::Host(ip(192, 168, 1, 10)), selection: Selection::Range(1, 1024) };
    assert_eq!(dispatcher.step("1024\n"), Reaction::Run(command));
    let scans = command.scans(&vec![ip(10, 0, 0, 1), ip(10, 0, 0, 3)]);
    assert_eq!(scans.len(), 1);
    assert_eq!(scans[0].target_address(), ip(192, 168, 1, 10));
    assert_eq!(scans[0].ports().len(), 1024);
    let single = command.scan_of(ip(10, 0, 0, 2));
    assert_eq!(single.target_address(), ip(10, 0, 0, 2));
    assert_eq!(single.ports().len(), 1024);
}

#[test]
fn dispatcher_does_not_return_to_the_menu() {
    let mut dispatcher = ActionDispatcher::new();
    dispatcher.step("1");
    assert_eq!(dispatcher.step("1"), Reaction::Finished);
    assert_eq!(dispatcher.step("2"), Reaction::Finished);
    assert_eq!(dispatcher.current_stage(), Stage::Done);
}

#[test]
fn input_that_cannot_be_read_ends_the_dispatch() {
    let mut dispatcher = ActionDispatcher::new();
    dispatcher.step("2");
    assert_eq!(dispatcher.step("10.0.0.300"), Reaction::Abort(InputParseError::InvalidAddress));
    assert!(dispatcher.is_done());
    assert_eq!(dispatcher.step("10.0.0.3"), Reaction::Finished);

    let mut dispatcher = ActionDispatcher::new();
    dispatcher.step("4");
    assert_eq!(dispatcher.step("host"), Reaction::Abort(InputParseError::InvalidAddress));

    let mut dispatcher = ActionDispatcher::new();
    dispatcher.step("3");
    assert_eq!(dispatcher.step("70000"), Reaction::Abort(InputParseError::InvalidStartPort));
    assert!(dispatcher.is_done());

    let mut dispatcher = ActionDispatcher::new();
    dispatcher.step("3");
    dispatcher.step("1");
    assert_eq!(dispatcher.step("-5"), Reaction::Abort(InputParseError::InvalidEndPort));
    assert!(dispatcher.is_done());
}

#[test]
fn range_with_start_above_end_is_taken_and_probes_nothing() {
    let mut dispatcher = ActionDispatcher::new();
    dispatcher.step("3");
    dispatcher.step("100");
    let command = Command { scope: Scope::AllHosts, selection: Selection::Range(100, 50) };
    assert_eq!(dispatcher.step("50"), Reaction::Run(command));
    let scans = command.scans(&vec![ip(10, 0, 0, 1)]);
    assert_eq!(scans.len(), 1);
    assert!(scans[0].ports().is_empty());
}

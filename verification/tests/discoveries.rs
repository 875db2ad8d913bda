use netsweep::address::Address;
use netsweep::batch::batch;
use netsweep::discovery::{gather, BatchReport, BatchRun, Discovery, ProbeOutcome, ReachableHostSet};
use netsweep::error::BarrierError;
use netsweep::scanner::NetworkScanner;

fn ip(a: u8, b: u8, c: u8, d: u8) -> Address {
    Address::from_octets(a, b, c, d)
}

fn answer(target: Address, reachable: &[Address]) -> ProbeOutcome {
    if reachable.contains(&target) {
        ProbeOutcome::Reachable(vec![target])
    } else {
        ProbeOutcome::Reachable(Vec::new())
    }
}

fn run_batch(targets: Vec<Address>, reachable: &[Address], failing: &[Address]) -> BatchReport {
    let mut run = BatchRun::new(targets);
    while let Some(target) = run.next_target() {
        let outcome =
            if failing.contains(&target) { ProbeOutcome::Failed } else { answer(target, reachable) };
        assert!(run.record(&outcome));
    }
    run.into_report().unwrap()
}

fn discover(addresses: &Vec<Address>, size: usize, reachable: &[Address], failing: &[Address]) -> Vec<Address> {
    let batches = batch(addresses, size).unwrap();
    let mut discovery = Discovery::new(batches.len());
    for targets in batches {
        assert!(discovery.absorb(&run_batch(targets, reachable, failing)));
    }
    let mut hosts = discovery.finish().unwrap().to_vec();
    hosts.sort_by_key(|a| a.to_bits());
    hosts
}

#[test]
fn end_to_end_discovery_of_a_block_of_four() {
    let scanner = NetworkScanner::new(ip(10, 0, 0, 5), ip(10, 0, 0, 0), 30, 2);
    let addresses = scanner.get_collected_ips().unwrap();
    assert_eq!(addresses, vec![ip(10, 0, 0, 0), ip(10, 0, 0, 1), ip(10, 0, 0, 2), ip(10, 0, 0, 3)]);
    let batches = scanner.get_ip_batches().unwrap();
    assert_eq!(
        batches,
        vec![vec![ip(10, 0, 0, 0), ip(10, 0, 0, 1)], vec![ip(10, 0, 0, 2), ip(10, 0, 0, 3)]]
    );
    let reachable = [ip(10, 0, 0, 1), ip(10, 0, 0, 3)];
    let mut discovery = Discovery::new(batches.len());
    for targets in batches {
        discovery.absorb(&run_batch(targets, &reachable, &[]));
    }
    let hosts = discovery.finish().unwrap();
    assert_eq!(hosts.len(), 2);
    assert!(hosts.contains(ip(10, 0, 0, 1)));
    assert!(hosts.contains(ip(10, 0, 0, 3)));
    assert!(!hosts.contains(ip(10, 0, 0, 0)));
    assert!(!hosts.contains(ip(10, 0, 0, 2)));
    assert_eq!(hosts.to_vec(), vec![ip(10, 0, 0, 1), ip(10, 0, 0, 3)]);
}

#[test]
fn discovery_does_not_depend_on_the_batch_size() {
    let scanner = NetworkScanner::new(ip(10, 0, 0, 5), ip(10, 0, 0, 0), 27, 1);
    let addresses = scanner.get_collected_ips().unwrap();
    let reachable = [ip(10, 0, 0, 1), ip(10, 0, 0, 7), ip(10, 0, 0, 8), ip(10, 0, 0, 30)];
    let by_one = discover(&addresses, 1, &reachable, &[]);
    let by_seven = discover(&addresses, 7, &reachable, &[]);
    assert_eq!(by_one, by_seven);
    assert_eq!(by_one, reachable.to_vec());
    assert_eq!(discover(&addresses, 32, &reachable, &[]), reachable.to_vec());
    assert_eq!(discover(&addresses, 1000, &reachable, &[]), reachable.to_vec());
}

#[test]
fn failing_probe_leaves_the_other_results() {
    let scanner = NetworkScanner::new(ip(10, 0, 0, 5), ip(10, 0, 0, 0), 29, 3);
    let addresses = scanner.get_collected_ips().unwrap();
    let reachable = [ip(10, 0, 0, 1), ip(10, 0, 0, 2), ip(10, 0, 0, 6)];
    assert_eq!(discover(&addresses, 3, &reachable, &[ip(10, 0, 0, 0)]), reachable.to_vec());
    assert_eq!(
        discover(&addresses, 3, &reachable, &[ip(10, 0, 0, 2)]),
        vec![ip(10, 0, 0, 1), ip(10, 0, 0, 6)]
    );
    assert_eq!(
        discover(&addresses, 3, &reachable, &[ip(10, 0, 0, 6), ip(10, 0, 0, 7)]),
        vec![ip(10, 0, 0, 1), ip(10, 0, 0, 2)]
    );
}

#[test]
fn batch_run_probes_its_targets_in_order() {
    let mut run = BatchRun::new(vec![ip(10, 0, 0, 1), ip(10, 0, 0, 2), ip(10, 0, 0, 3)]);
    assert!(!run.is_finished());
    assert_eq!(run.next_target(), Some(ip(10, 0, 0, 1)));
    assert_eq!(run.next_target(), Some(ip(10, 0, 0, 1)));
    assert!(run.record(&ProbeOutcome::Reachable(vec![ip(10, 0, 0, 1)])));
    assert_eq!(run.next_target(), Some(ip(10, 0, 0, 2)));
    assert!(run.record(&ProbeOutcome::Failed));
    assert_eq!(*run.found(), vec![ip(10, 0, 0, 1)]);
    assert_eq!(run.next_target(), Some(ip(10, 0, 0, 3)));
    assert!(run.record(&ProbeOutcome::Reachable(vec![ip(10, 0, 0, 3), ip(10, 0, 0, 3)])));
    assert!(run.is_finished());
    assert_eq!(run.next_target(), None);
    assert!(!run.record(&ProbeOutcome::Reachable(vec![ip(10, 0, 0, 9)])));
    assert_eq!(*run.found(), vec![ip(10, 0, 0, 1), ip(10, 0, 0, 3), ip(10, 0, 0, 3)]);
    match run.into_report() {
        Some(BatchReport::Completed(hosts)) => {
            assert_eq!(hosts, vec![ip(10, 0, 0, 1), ip(10, 0, 0, 3), ip(10, 0, 0, 3)])
        }
        other => panic!("{:?}", other),
    }
}

#[test]
fn batch_run_gives_no_report_before_its_end() {
    let mut run = BatchRun::new(vec![ip(10, 0, 0, 1), ip(10, 0, 0, 2)]);
    run.record(&ProbeOutcome::Reachable(vec![ip(10, 0, 0, 1)]));
    assert!(run.into_report().is_none());
    let empty = BatchRun::new(Vec::new());
    assert!(empty.is_finished());
    match empty.into_report() {
        Some(BatchReport::Completed(hosts)) => assert!(hosts.is_empty()),
        other => panic!("{:?}", other),
    }
}

#[test]
fn discovery_gives_its_result_only_after_every_report() {
    let mut discovery = Discovery::new(2);
    assert!(!discovery.is_complete());
    assert!(discovery.absorb(&BatchReport::Completed(vec![ip(10, 0, 0, 1)])));
    assert!(!discovery.is_complete());
    assert!(discovery.finish().is_none());

    let mut discovery = Discovery::new(2);
    assert!(discovery.absorb(&BatchReport::Completed(vec![ip(10, 0, 0, 1)])));
    assert!(discovery.absorb(&BatchReport::Completed(vec![ip(10, 0, 0, 4), ip(10, 0, 0, 1)])));
    assert!(discovery.is_complete());
    assert!(!discovery.absorb(&BatchReport::Completed(vec![ip(10, 0, 0, 9)])));
    assert_eq!(discovery.finish().unwrap().to_vec(), vec![ip(10, 0, 0, 1), ip(10, 0, 0, 4)]);

    let none = Discovery::new(0);
    assert!(none.is_complete());
    assert!(none.finish().unwrap().is_empty());
}

#[test]
fn aborted_batch_leaves_the_reports_of_the_others() {
    let mut discovery = Discovery::new(3);
    assert!(discovery.absorb(&BatchReport::Completed(vec![ip(10, 0, 0, 1)])));
    assert!(discovery.absorb(&BatchReport::Aborted));
    assert!(discovery.absorb(&BatchReport::Completed(vec![ip(10, 0, 0, 7)])));
    assert_eq!(discovery.finish().unwrap().to_vec(), vec![ip(10, 0, 0, 1), ip(10, 0, 0, 7)]);
}

#[test]
fn gather_takes_one_report_for_each_batch() {
    let reports = vec![
        BatchReport::Completed(vec![ip(10, 0, 0, 1), ip(10, 0, 0, 2)]),
        BatchReport::Aborted,
        BatchReport::Completed(vec![ip(10, 0, 0, 2), ip(10, 0, 0, 9)]),
    ];
    assert_eq!(
        gather(3, &reports).unwrap().to_vec(),
        vec![ip(10, 0, 0, 1), ip(10, 0, 0, 2), ip(10, 0, 0, 9)]
    );
    assert_eq!(gather(2, &reports).err(), Some(BarrierError::OutcomeCountMismatch));
    assert_eq!(gather(4, &reports).err(), Some(BarrierError::OutcomeCountMismatch));
    assert!(gather(0, &Vec::new()).unwrap().is_empty());
}

#[test]
fn host_set_holds_each_host_once() {
    let mut hosts = ReachableHostSet::new();
    assert!(hosts.is_empty());
    assert!(hosts.insert(ip(10, 0, 0, 2)));
    assert!(hosts.insert(ip(10, 0, 0, 1)));
    assert!(!hosts.insert(ip(10, 0, 0, 2)));
    assert_eq!(hosts.len(), 2);
    assert!(!hosts.is_empty());
    hosts.extend(&vec![ip(10, 0, 0, 1), ip(10, 0, 0, 3), ip(10, 0, 0, 3)]);
    assert_eq!(hosts.len(), 3);
    assert!(hosts.contains(ip(10, 0, 0, 3)));
    assert!(!hosts.contains(ip(10, 0, 0, 4)));
    assert_eq!(hosts.to_vec(), vec![ip(10, 0, 0, 2), ip(10, 0, 0, 1), ip(10, 0, 0, 3)]);
}

use netsweep::address::Address;
use netsweep::batch::batch;
use netsweep::block::{AddressBlock, IpIterator};
use netsweep::error::ConfigurationError;
use netsweep::scanner::NetworkScanner;

fn ip(a: u8, b: u8, c: u8, d: u8) -> Address {
    Address::from_octets(a, b, c, d)
}

#[test]
fn block_of_prefix_30_holds_four_addresses() {
    let block = AddressBlock::new(ip(10, 0, 0, 0), 30).unwrap();
    assert_eq!(block.count(), 4);
    assert_eq!(
        block.collect(),
        vec![ip(10, 0, 0, 0), ip(10, 0, 0, 1), ip(10, 0, 0, 2), ip(10, 0, 0, 3)]
    );
}

#[test]
fn network_address_clears_the_host_bits() {
    let block = AddressBlock::new(ip(10, 0, 0, 5), 30).unwrap();
    assert_eq!(block.network_address(), ip(10, 0, 0, 4));
    assert_eq!(block.start_address(), ip(10, 0, 0, 5));
    let wide = AddressBlock::new(ip(172, 16, 123, 123), 16).unwrap();
    assert_eq!(wide.network_address(), ip(172, 16, 0, 0));
}

#[test]
fn broadcast_address_sets_the_host_bits() {
    let block = AddressBlock::new(ip(10, 0, 0, 5), 30).unwrap();
    assert_eq!(block.broadcast_address(), ip(10, 0, 0, 7));
    let wide = AddressBlock::new(ip(172, 16, 0, 0), 22).unwrap();
    assert_eq!(wide.broadcast_address(), ip(172, 16, 3, 255));
}

#[test]
fn prefix_32_gives_the_address_alone() {
    let block = AddressBlock::new(ip(192, 168, 1, 77), 32).unwrap();
    assert_eq!(block.network_address(), block.broadcast_address());
    assert_eq!(block.count(), 1);
    assert_eq!(block.collect(), vec![ip(192, 168, 1, 77)]);
}

#[test]
fn prefix_0_spans_the_whole_address_space() {
    let block = AddressBlock::new(ip(10, 1, 2, 3), 0).unwrap();
    assert_eq!(block.network_address(), ip(0, 0, 0, 0));
    assert_eq!(block.broadcast_address(), ip(255, 255, 255, 255));
    assert_eq!(block.count(), 1u64 << 32);
    let mut it = block.enumerate();
    assert_eq!(it.len(), 1u64 << 32);
    assert_eq!(it.next(), Some(ip(0, 0, 0, 0)));
    assert_eq!(it.next(), Some(ip(0, 0, 0, 1)));
    assert_eq!(it.len(), (1u64 << 32) - 2);
}

#[test]
fn every_prefix_gives_two_to_the_host_bits_addresses() {
    let mut prefix: u32 = 0;
    while prefix <= 32 {
        let block = AddressBlock::new(ip(203, 0, 113, 200), prefix).unwrap();
        assert_eq!(block.count(), 1u64 << (32 - prefix));
        assert_eq!(
            block.broadcast_address().to_bits() as u64 - block.network_address().to_bits() as u64 + 1,
            block.count()
        );
        prefix += 1;
    }
}

#[test]
fn enumeration_is_strictly_ascending_from_network_to_broadcast() {
    let block = AddressBlock::new(ip(192, 168, 7, 99), 24).unwrap();
    let ips = block.collect();
    assert_eq!(ips.len(), 256);
    assert_eq!(ips[0], ip(192, 168, 7, 0));
    assert_eq!(ips[255], ip(192, 168, 7, 255));
    for i in 1..ips.len() {
        assert!(ips[i - 1].to_bits() < ips[i].to_bits());
    }
}

#[test]
fn prefix_above_32_is_refused() {
    assert_eq!(AddressBlock::new(ip(10, 0, 0, 0), 33).err(), Some(ConfigurationError::InvalidBlock));
    assert_eq!(AddressBlock::new(ip(10, 0, 0, 0), 256).err(), Some(ConfigurationError::InvalidBlock));
    assert_eq!(
        AddressBlock::new(ip(10, 0, 0, 0), 4_000_000_000).err(),
        Some(ConfigurationError::InvalidBlock)
    );
    assert!(AddressBlock::new(ip(10, 0, 0, 0), 32).is_ok());
}

#[test]
fn iterator_reaches_the_last_address_and_stops() {
    let mut it = IpIterator::new(ip(255, 255, 255, 254), ip(255, 255, 255, 255));
    assert_eq!(it.len(), 2);
    assert_eq!(it.next(), Some(ip(255, 255, 255, 254)));
    assert_eq!(it.next(), Some(ip(255, 255, 255, 255)));
    assert_eq!(it.next(), None);
    assert_eq!(it.next(), None);
    assert_eq!(it.len(), 0);
}

#[test]
fn iterator_from_above_its_end_is_empty() {
    let mut it = IpIterator::new(ip(10, 0, 0, 9), ip(10, 0, 0, 8));
    assert_eq!(it.len(), 0);
    assert_eq!(it.next(), None);
    assert_eq!(it.collect(), Vec::<Address>::new());
}

#[test]
fn iterator_collects_what_is_left() {
    let mut it = IpIterator::new(ip(10, 0, 0, 1), ip(10, 0, 0, 4));
    assert_eq!(it.next(), Some(ip(10, 0, 0, 1)));
    assert_eq!(it.collect(), vec![ip(10, 0, 0, 2), ip(10, 0, 0, 3), ip(10, 0, 0, 4)]);
    assert_eq!(it.next(), None);
}

#[test]
fn thirteen_addresses_in_batches_of_five() {
    let mut it = IpIterator::new(ip(10, 0, 0, 1), ip(10, 0, 0, 13));
    let seq = it.collect();
    assert_eq!(seq.len(), 13);
    let batches = batch(&seq, 5).unwrap();
    let sizes: Vec<usize> = batches.iter().map(|b| b.len()).collect();
    assert_eq!(sizes, vec![5, 5, 3]);
    let joined: Vec<Address> = batches.concat();
    assert_eq!(joined, seq);
}

#[test]
fn batches_of_a_multiple_are_all_full() {
    let mut it = IpIterator::new(ip(10, 0, 0, 0), ip(10, 0, 0, 9));
    let seq = it.collect();
    let batches = batch(&seq, 5).unwrap();
    assert_eq!(batches.len(), 2);
    assert_eq!(batches[0], seq[0..5].to_vec());
    assert_eq!(batches[1], seq[5..10].to_vec());
}

#[test]
fn batch_larger_than_the_sequence_is_one_batch() {
    let seq = vec![ip(10, 0, 0, 1), ip(10, 0, 0, 2)];
    assert_eq!(batch(&seq, 7).unwrap(), vec![seq.clone()]);
    assert_eq!(batch(&seq, 2).unwrap(), vec![seq.clone()]);
    assert_eq!(batch(&seq, 1).unwrap(), vec![vec![seq[0]], vec![seq[1]]]);
}

#[test]
fn batching_nothing_gives_no_batch() {
    assert_eq!(batch(&Vec::new(), 3).unwrap(), Vec::<Vec<Address>>::new());
}

#[test]
fn batch_size_zero_is_refused() {
    let seq = vec![ip(10, 0, 0, 1)];
    assert_eq!(batch(&seq, 0).err(), Some(ConfigurationError::InvalidBatchSize));
    assert_eq!(batch(&Vec::new(), 0).err(), Some(ConfigurationError::InvalidBatchSize));
}

#[test]
fn scanner_keeps_its_configuration() {
    let scanner = NetworkScanner::new(ip(10, 0, 0, 5), ip(10, 0, 0, 0), 30, 2);
    assert_eq!(scanner.source_ip(), ip(10, 0, 0, 5));
    assert_eq!(scanner.target_start_ip(), ip(10, 0, 0, 0));
    assert_eq!(scanner.target_cidr(), 30);
    assert_eq!(scanner.batch_size(), 2);
    assert_eq!(scanner.get_optimized_ip_cidr(), "10.0.0.0/30");
}

#[test]
fn scanner_init_is_all_zero_and_runs_nothing() {
    let scanner = NetworkScanner::init();
    assert_eq!(scanner.source_ip(), ip(0, 0, 0, 0));
    assert_eq!(scanner.target_start_ip(), ip(0, 0, 0, 0));
    assert_eq!(scanner.target_cidr(), 0);
    assert_eq!(scanner.batch_size(), 0);
    assert_eq!(scanner.get_optimized_ip_cidr(), "0.0.0.0/0");
    let small = NetworkScanner::new(ip(0, 0, 0, 0), ip(0, 0, 0, 0), 32, 0);
    assert_eq!(small.get_ip_batches().err(), Some(ConfigurationError::InvalidBatchSize));
}

#[test]
fn scanner_collects_and_batches_its_block() {
    let scanner = NetworkScanner::new(ip(10, 0, 0, 5), ip(10, 0, 0, 0), 30, 2);
    assert!(scanner.fits_in_memory());
    assert_eq!(
        scanner.get_collected_ips().unwrap(),
        vec![ip(10, 0, 0, 0), ip(10, 0, 0, 1), ip(10, 0, 0, 2), ip(10, 0, 0, 3)]
    );
    assert_eq!(
        scanner.get_ip_batches().unwrap(),
        vec![vec![ip(10, 0, 0, 0), ip(10, 0, 0, 1)], vec![ip(10, 0, 0, 2), ip(10, 0, 0, 3)]]
    );
}

#[test]
fn scanner_refuses_a_bad_prefix_before_a_bad_batch_size() {
    let scanner = NetworkScanner::new(ip(10, 0, 0, 5), ip(10, 0, 0, 0), 33, 0);
    assert!(scanner.fits_in_memory());
    assert_eq!(scanner.target_block().err(), Some(ConfigurationError::InvalidBlock));
    assert_eq!(scanner.get_collected_ips().err(), Some(ConfigurationError::InvalidBlock));
    assert_eq!(scanner.get_ip_batches().err(), Some(ConfigurationError::InvalidBlock));
    assert_eq!(scanner.get_optimized_ip_cidr(), "10.0.0.0/33");
}

#[test]
fn scanner_starts_its_block_at_the_network_address() {
    let scanner = NetworkScanner::new(ip(10, 0, 0, 5), ip(192, 168, 1, 130), 25, 64);
    let ips = scanner.get_collected_ips().unwrap();
    assert_eq!(ips.len(), 128);
    assert_eq!(ips[0], ip(192, 168, 1, 128));
    assert_eq!(ips[127], ip(192, 168, 1, 255));
    let batches = scanner.get_ip_batches().unwrap();
    assert_eq!(batches.len(), 2);
    assert_eq!(batches[1][0], ip(192, 168, 1, 192));
}

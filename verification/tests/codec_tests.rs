use scx_bpfland::cpumask::Cpumask;
use scx_bpfland::codec::{cpus_to_cpumask, parse_cpumask, ParseError};
use scx_bpfland::topology::{Cpu, Topology};

fn cpu(id: usize, base: usize, max: usize) -> Cpu {
    Cpu { id, base_freq: base, max_freq: max, l2_id: 0, l3_id: 0 }
}

#[test]
fn encode_empty_is_0x0() {
    let cpus: Vec<usize> = Vec::new();
    assert_eq!(cpus_to_cpumask(&cpus), "0x0");
}

#[test]
fn encode_single_cpu0() {
    assert_eq!(cpus_to_cpumask(&vec![0]), "0x01");
}

#[test]
fn encode_low_bits() {
    // Bits 4 and 7 of the single byte: 0x90.
    assert_eq!(cpus_to_cpumask(&vec![4, 7]), "0x90");
}

#[test]
fn encode_two_bytes_big_endian() {
    // CPU 0 sits in the least significant byte, which is rendered last.
    assert_eq!(cpus_to_cpumask(&vec![0, 8]), "0x0101");
}

#[test]
fn encode_width_follows_highest_id() {
    assert_eq!(cpus_to_cpumask(&vec![16]), "0x010000");
}

#[test]
fn decode_0x0_is_empty() {
    let m = Cpumask::from_str("0x0", 8).unwrap();
    assert!(m.is_empty());
}

#[test]
fn decode_rejects_bad_hex() {
    assert_eq!(Cpumask::from_str("0xzz", 8).unwrap_err(), ParseError::InvalidHexChar);
    assert!(Cpumask::from_str("hello", 8).is_err());
}

#[test]
fn decode_accepts_uppercase_underscores_and_odd_width() {
    let m = Cpumask::from_str("0xF_0", 16).unwrap();
    for i in 0..4 {
        assert!(!m.test_cpu(i));
    }
    for i in 4..8 {
        assert!(m.test_cpu(i));
    }
    assert!(!m.test_cpu(8));
}

#[test]
fn decode_without_prefix() {
    let m = Cpumask::from_str("90", 8).unwrap();
    assert!(m.test_cpu(4));
    assert!(m.test_cpu(7));
    assert!(!m.test_cpu(0));
}

#[test]
fn decode_rejects_non_hex_words() {
    // Only hex strings denote masks; words are not keywords here.
    assert_eq!(Cpumask::from_str("none", 8).unwrap_err(), ParseError::InvalidHexChar);
    assert_eq!(Cpumask::from_str("all", 8).unwrap_err(), ParseError::InvalidHexChar);
}

#[test]
fn decode_rejects_bits_beyond_the_machine() {
    // Bit 4 selects a CPU a 4-CPU machine does not have.
    assert_eq!(Cpumask::from_str("0x10", 4).unwrap_err(), ParseError::CpuOutOfRange);
    assert_eq!(
        Cpumask::from_str("0x1_0000_0000_0000", 32).unwrap_err(),
        ParseError::CpuOutOfRange
    );
    // The highest representable bit is still fine.
    let m = Cpumask::from_str("0x8", 4).unwrap();
    assert!(m.test_cpu(3));
    // Leading zero digits beyond the machine width carry no set bit.
    let m = Cpumask::from_str("0x0008", 4).unwrap();
    assert!(m.test_cpu(3));
}

#[test]
fn round_trip_small_set() {
    let ids = vec![0usize, 2, 5, 9];
    let hex = cpus_to_cpumask(&ids);
    let m = Cpumask::from_str(&hex, 16).unwrap();
    for i in 0..16 {
        assert_eq!(m.test_cpu(i), ids.contains(&i));
    }
}

#[test]
fn round_trip_sparse_set() {
    let ids = vec![63usize, 1, 17];
    let hex = cpus_to_cpumask(&ids);
    let m = Cpumask::from_str(&hex, 64).unwrap();
    for i in 0..64 {
        assert_eq!(m.test_cpu(i), ids.contains(&i));
    }
}

#[test]
fn parse_cpumask_keyword_powersave() {
    // Heterogeneous base clocks: CPUs 0 and 1 are the slow tier.
    let topo = Topology::new(vec![
        cpu(0, 2000, 4000),
        cpu(1, 2000, 4000),
        cpu(2, 3000, 5000),
        cpu(3, 3000, 5000),
    ]);
    let m = parse_cpumask("powersave", &topo, 4).unwrap();
    assert!(m.test_cpu(0) && m.test_cpu(1));
    assert!(!m.test_cpu(2) && !m.test_cpu(3));
}

#[test]
fn parse_cpumask_keyword_performance() {
    let topo = Topology::new(vec![
        cpu(0, 2000, 4000),
        cpu(1, 2000, 4000),
        cpu(2, 3000, 5000),
        cpu(3, 3000, 5000),
    ]);
    let m = parse_cpumask("performance", &topo, 4).unwrap();
    assert!(!m.test_cpu(0) && !m.test_cpu(1));
    assert!(m.test_cpu(2) && m.test_cpu(3));
}

#[test]
fn parse_cpumask_auto_is_empty() {
    let topo = Topology::new(vec![cpu(0, 2000, 4000)]);
    let m = parse_cpumask("auto", &topo, 4).unwrap();
    assert!(m.is_empty());
}

#[test]
fn parse_cpumask_empty_string_is_full_mask() {
    let topo = Topology::new(vec![cpu(0, 2000, 4000)]);
    let m = parse_cpumask("", &topo, 4).unwrap();
    for i in 0..4 {
        assert!(m.test_cpu(i));
    }
    assert!(!m.test_cpu(4));
}

#[test]
fn parse_cpumask_literal_hex() {
    let topo = Topology::new(vec![cpu(0, 2000, 4000)]);
    let m = parse_cpumask("0xff", &topo, 8).unwrap();
    for i in 0..8 {
        assert!(m.test_cpu(i));
    }
    assert!(parse_cpumask("0xfg", &topo, 8).is_err());
}

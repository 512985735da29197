use cornea::cli::{common_prefix_len, mismatch, mismatch_chunks, port_from_stdout};
use cornea::instance_registry::{find_instance_in, trim_leading_dots, Instance};
use cornea::memory::{space_ids, Space};

#[test]
fn mismatch_counts_common_prefix() {
    assert_eq!(mismatch(b"abcdef", b"abcxef"), 3);
    assert_eq!(mismatch(b"abc", b"abcdef"), 3);
    assert_eq!(mismatch(b"", b"abc"), 0);
    let long_a = vec![7u8; 300];
    let mut long_b = long_a.clone();
    long_b[259] = 8;
    assert_eq!(mismatch(&long_a, &long_b), 259);
    assert_eq!(mismatch(&long_a, &long_a), 300);
    assert_eq!(mismatch_chunks::<4>(b"abcdefgh", b"abcdefgX"), 7);
    assert_eq!(mismatch_chunks::<1>(b"ab", b"ab"), 2);
}

#[test]
fn common_prefix_of_names() {
    let names = vec!["component.cpu0".to_string(), "component.cpu1".to_string(), "component.bus".to_string()];
    assert_eq!(common_prefix_len(&names), 10);
    assert_eq!(common_prefix_len(&vec!["only".to_string()]), 0);
    assert_eq!(common_prefix_len(&vec![]), 0);
}

#[test]
fn port_banner() {
    assert_eq!(port_from_stdout(b"Iris server started listening to port 7100"), Some(Some(7100)));
    assert_eq!(port_from_stdout(b"Iris server started listening to port 70000"), Some(None));
    assert_eq!(port_from_stdout(b"Iris server started listening to port x"), Some(None));
    assert_eq!(port_from_stdout(b"Simulation is started"), None);
}

#[test]
fn instance_lookup_by_short_name() {
    let insts = vec![
        Instance { id: 1, name: "component.sys.cpu0".to_string() },
        Instance { id: 2, name: "component.sys.bus".to_string() },
    ];
    assert_eq!(find_instance_in(&insts, b"cpu0"), Some(0));
    assert_eq!(find_instance_in(&insts, b".bus"), Some(1));
    assert_eq!(find_instance_in(&insts, b"gpu"), None);
    assert_eq!(trim_leading_dots(b"..a.b"), b"a.b".to_vec());
}

#[test]
fn space_ids_in_order() {
    let sp = |id: u64| Space {
        cannonical_msn: None,
        description: None,
        endianness: None,
        max_addr: None,
        min_addr: None,
        name: format!("s{}", id),
        id,
    };
    assert_eq!(space_ids(&vec![sp(3), sp(1)]), vec![3, 1]);
}

use cornea::cli::{group_by_from_str, hex_dump, hex_dump_fits, space_by_name, space_number, GroupBy};

fn dump_text(address: u64, buff: &[u8], g: GroupBy) -> Vec<String> {
    hex_dump(address, buff, g).into_iter().map(|l| String::from_utf8(l).unwrap()).collect()
}

#[test]
fn hex_dump_bytes() {
    let lines = dump_text(0x1000, &[0x41, 0x42, 0x00, 0x7f], GroupBy::U8);
    assert_eq!(lines.len(), 2);
    assert_eq!(lines[0], "         0  1  2  3  4  5  6  7  8  9  a  b  c  d  e  f");
    assert_eq!(lines[1], format!("00001000 41 42 00 7f{} AB..{}", " ".repeat(36), " ".repeat(12)));
}

#[test]
fn hex_dump_half_words() {
    let lines = dump_text(0x1002, &[0x41, 0x42, 0x00, 0x7f], GroupBy::U16);
    assert_eq!(lines[0], "         0    2    4    6    8    a    c    e");
    assert_eq!(lines[1], format!("00001000      4241 7f00{}   AB..{}", " ".repeat(25), " ".repeat(10)));
}

#[test]
fn hex_dump_lines_and_words() {
    let buff: Vec<u8> = (0u8..32).collect();
    let lines = dump_text(0x1_0000_0000, &buff, GroupBy::U64);
    assert_eq!(lines.len(), 3);
    assert_eq!(lines[0], "         0                8");
    assert_eq!(lines[1], "100000000 0706050403020100 0f0e0d0c0b0a0908 ................");
    assert_eq!(lines[2], "100000010 1716151413121110 1f1e1d1c1b1a1918 ................");
    let u32s = dump_text(0, &[1, 0, 0, 0, 0x30], GroupBy::U32);
    assert_eq!(u32s[0], "         0        4        8        c");
    assert_eq!(u32s[1], format!("00000000 00000001{} ....0{}", " ".repeat(27), " ".repeat(11)));
    assert!(hex_dump_fits(0, 16));
    assert!(!hex_dump_fits(u64::MAX - 20, 0));
}

#[test]
fn group_by_names() {
    assert_eq!(group_by_from_str(b"char"), Some(GroupBy::U8));
    assert_eq!(group_by_from_str(b"uint16_t"), Some(GroupBy::U16));
    assert_eq!(group_by_from_str(b"int"), Some(GroupBy::U32));
    assert_eq!(group_by_from_str(b"long"), Some(GroupBy::U64));
    assert_eq!(group_by_from_str(b"u128"), None);
}

#[test]
fn spaces_by_number_or_name() {
    let sp = |id: u64, name: &str| Space {
        cannonical_msn: None,
        description: None,
        endianness: None,
        max_addr: None,
        min_addr: None,
        name: name.to_string(),
        id,
    };
    let spaces = vec![sp(1, "Secure Memory"), sp(2, "NS Memory")];
    assert_eq!(space_number(b"12"), Some(12));
    assert_eq!(space_number(b"ns memory"), None);
    assert_eq!(space_by_name("ns MEMORY", &spaces), Some(2));
    assert_eq!(space_by_name("other", &spaces), None);
}

//! Blocks of IPv6 addresses.

use sixhop::addr::Ipv6Addr;
use sixhop::block::{mask_ipv6, parse_ipv6_blocks, random_egress_ipv6, BlockError, Ipv6Block};
use sixhop::ipv6_text::parse_ipv6;

fn groups(g: [u16; 8]) -> Ipv6Addr {
    let mut octets = [0u8; 16];
    for i in 0..8 {
        octets[2 * i] = (g[i] >> 8) as u8;
        octets[2 * i + 1] = g[i] as u8;
    }
    Ipv6Addr { octets }
}

fn strings(v: &[&str]) -> Vec<String> {
    v.iter().map(|s| s.to_string()).collect()
}

#[test]
fn addresses_in_text() {
    assert_eq!(parse_ipv6("::"), Some(groups([0; 8])));
    assert_eq!(parse_ipv6("::1"), Some(groups([0, 0, 0, 0, 0, 0, 0, 1])));
    assert_eq!(parse_ipv6("1::"), Some(groups([1, 0, 0, 0, 0, 0, 0, 0])));
    assert_eq!(parse_ipv6("2001:db8::ff00:42:8329"), Some(groups([0x2001, 0xdb8, 0, 0, 0, 0xff00, 0x42, 0x8329])));
    assert_eq!(parse_ipv6("2001:0DB8:0:0:8:800:200C:417A"), Some(groups([0x2001, 0xdb8, 0, 0, 8, 0x800, 0x200c, 0x417a])));
    assert_eq!(parse_ipv6("1:2:3:4:5:6:7::"), Some(groups([1, 2, 3, 4, 5, 6, 7, 0])));
    assert_eq!(parse_ipv6("::2:3:4:5:6:7:8"), Some(groups([0, 2, 3, 4, 5, 6, 7, 8])));
    assert_eq!(parse_ipv6("1:2:3:4::6:7:8"), Some(groups([1, 2, 3, 4, 0, 6, 7, 8])));
    assert_eq!(parse_ipv6("::ffff:192.0.2.128"), Some(groups([0, 0, 0, 0, 0, 0xffff, 0xc000, 0x280])));
    assert_eq!(parse_ipv6("1:2:3:4:5:6:77.77.88.88"), Some(groups([1, 2, 3, 4, 5, 6, 0x4d4d, 0x5858])));
    assert_eq!(parse_ipv6("64:ff9b::0.0.0.0"), Some(groups([0x64, 0xff9b, 0, 0, 0, 0, 0, 0])));
}

#[test]
fn texts_that_are_no_addresses() {
    for s in [
        "", ":", ":::", "1", "1:2:3:4:5:6:7", "1:2:3:4:5:6:7:8:9", "1:2:3:4:5:6:7:8::", "::1:2:3:4:5:6:7:8",
        "1::2::3", ":1:2:3:4:5:6:7:8", "1:2:3:4:5:6:7:8:", "1:::2", ":1::", "12345::", "g::", "::-1", "::+1",
        " ::1", "::1 ", "1.2.3.4", "1.2.3.4::", "::1.2.3.4:5", "::1.2.3", "::1.2.3.4.5", "::1.2.3.256",
        "::01.2.3.4", "::1.2.3.", "::1..3.4", "1:2:3:4:5:6:7:1.2.3.4", "::1%eth0", "[::1]", "::１", "::1/64",
    ] {
        assert_eq!(parse_ipv6(s), None, "{}", s);
    }
}

#[test]
fn masks() {
    let all = Ipv6Addr { octets: [0xff; 16] };
    assert_eq!(mask_ipv6(all, 0), groups([0; 8]));
    assert_eq!(mask_ipv6(all, 128), all);
    assert_eq!(mask_ipv6(all, 200), all);
    assert_eq!(mask_ipv6(all, 48), groups([0xffff, 0xffff, 0xffff, 0, 0, 0, 0, 0]));
    assert_eq!(mask_ipv6(all, 45), groups([0xffff, 0xffff, 0xfff8, 0, 0, 0, 0, 0]));
    assert_eq!(mask_ipv6(all, 127).octets[15], 0xfe);
    assert_eq!(mask_ipv6(all, 1).octets[0], 0x80);
    assert_eq!(mask_ipv6(mask_ipv6(all, 45), 45), mask_ipv6(all, 45));
}

#[test]
fn blocks_in_text() {
    let b = Ipv6Block::parse("2001:db8:aaaa::1/48").unwrap();
    assert_eq!(b.network, groups([0x2001, 0xdb8, 0xaaaa, 0, 0, 0, 0, 0]));
    assert_eq!(b.prefix_len, 48);
    let b = Ipv6Block::parse(" 2001:db8::ffff / +61 ").unwrap();
    assert_eq!((b.network, b.prefix_len), (groups([0x2001, 0xdb8, 0, 0, 0, 0, 0, 0]), 61));
    let b = Ipv6Block::parse("::5/128").unwrap();
    assert_eq!((b.network, b.prefix_len), (groups([0, 0, 0, 0, 0, 0, 0, 5]), 128));
    let b = Ipv6Block::parse("ffff::/0").unwrap();
    assert_eq!((b.network, b.prefix_len), (groups([0; 8]), 0));
}

#[test]
fn texts_that_are_no_blocks() {
    assert_eq!(Ipv6Block::parse("::1"), Err(BlockError::MissingSlash("::1".to_string())));
    assert_eq!(Ipv6Block::parse(" ::x /64"), Err(BlockError::InvalidAddress(" ::x ".to_string())));
    assert_eq!(Ipv6Block::parse("10.0.0.0/8"), Err(BlockError::InvalidAddress("10.0.0.0".to_string())));
    assert_eq!(Ipv6Block::parse("::/x"), Err(BlockError::InvalidPrefix("x".to_string())));
    assert_eq!(Ipv6Block::parse("::/"), Err(BlockError::InvalidPrefix("".to_string())));
    assert_eq!(Ipv6Block::parse("::/256"), Err(BlockError::InvalidPrefix("256".to_string())));
    assert_eq!(Ipv6Block::parse("::/64/64"), Err(BlockError::InvalidPrefix("64/64".to_string())));
    assert_eq!(Ipv6Block::parse("::/129"), Err(BlockError::PrefixTooLong("::/129".to_string())));
}

#[test]
fn words_for_blocks_that_cannot_be_read() {
    let words = |s: &str| Ipv6Block::parse(s).unwrap_err().message();
    assert_eq!(words("::1"), "IPv6 块格式错误（缺少 '/'）: ::1");
    assert_eq!(words("x/1"), "非法 IPv6 地址: x");
    assert_eq!(words("::/y"), "非法前缀长度: y");
    assert_eq!(words("::/130"), "前缀长度不能大于 128: ::/130");
}

#[test]
fn lists_of_blocks() {
    let apart = parse_ipv6_blocks(&strings(&["1::/16", " 2::/32 ", "3::/48"])).unwrap();
    let together = parse_ipv6_blocks(&strings(&["1::/16,2::/32, ,3::/48,"])).unwrap();
    assert_eq!(apart, together);
    assert_eq!(apart.len(), 3);
    assert_eq!(apart[1], Ipv6Block::parse("2::/32").unwrap());
    assert_eq!(parse_ipv6_blocks(&[]), Ok(Vec::new()));
    assert_eq!(parse_ipv6_blocks(&strings(&["", " , "])), Ok(Vec::new()));
    assert_eq!(
        parse_ipv6_blocks(&strings(&["1::/16, y/1", "z"])),
        Err(BlockError::InvalidAddress("y".to_string()))
    );
}

#[test]
fn addresses_that_are_drawn() {
    let b = Ipv6Block::parse("2001:db8:aaaa::/48").unwrap();
    let draw: [u8; 16] = [1, 2, 3, 4, 5, 6, 7, 8, 9, 10, 11, 12, 13, 14, 15, 16];
    let got = b.ip_from(&draw).octets;
    assert_eq!(got, [0x20, 0x01, 0x0d, 0xb8, 0xaa, 0xaa, 7, 8, 9, 10, 11, 12, 13, 14, 15, 16]);
    assert_eq!(b.ip_from(&[0; 16]), groups([0x2001, 0xdb8, 0xaaaa, 0, 0, 0, 0, 1]));
    let b = Ipv6Block::parse("2001:db8:aaa8::/45").unwrap();
    let mut draw = [0xffu8; 16];
    assert_eq!(b.ip_from(&draw).octets[5], 0xaf);
    assert_eq!(b.ip_from(&[0; 16]), groups([0x2001, 0xdb8, 0xaaa9, 0, 0, 0, 0, 0]));
    draw = [0u8; 16];
    draw[5] = 0xf8;
    assert_eq!(b.ip_from(&draw), groups([0x2001, 0xdb8, 0xaaa9, 0, 0, 0, 0, 0]));
    draw[15] = 4;
    assert_eq!(b.ip_from(&draw), groups([0x2001, 0xdb8, 0xaaa8, 0, 0, 0, 0, 4]));
    let b = Ipv6Block::parse("2001:db8:cccc::1/128").unwrap();
    assert_eq!(b.ip_from(&[0x55; 16]), b.network);
    assert_eq!(b.ip_from(&[0; 16]), b.network);
    let b = Ipv6Block::parse("::/0").unwrap();
    assert_eq!(b.ip_from(&[0; 16]), groups([0, 0, 0, 0, 0, 0, 0, 1]));
    assert_eq!(b.ip_from(&[3; 16]).octets, [3; 16]);
    let b = Ipv6Block::parse("::4/127").unwrap();
    assert_eq!(b.ip_from(&[0; 16]), groups([0, 0, 0, 0, 0, 0, 0, 5]));
}

#[test]
fn random_addresses_lie_in_their_block() {
    let mut rng = rand::thread_rng();
    for len in 0..=128u8 {
        let whole = Ipv6Addr { octets: [0xa5; 16] };
        let b = Ipv6Block { network: mask_ipv6(whole, len), prefix_len: len };
        for _ in 0..4 {
            let ip = b.random_ip(&mut rng);
            assert_eq!(mask_ipv6(ip, len), b.network);
            assert_eq!(ip == b.network, len == 128);
        }
    }
}

#[test]
fn random_sources() {
    assert_eq!(random_egress_ipv6(&[]), None);
    let blocks = parse_ipv6_blocks(&strings(&["1::1/128,2::2/128"])).unwrap();
    let mut seen = [false, false];
    for _ in 0..200 {
        let ip = random_egress_ipv6(&blocks).unwrap();
        if ip == blocks[0].network {
            seen[0] = true;
        } else {
            assert_eq!(ip, blocks[1].network);
            seen[1] = true;
        }
    }
    assert_eq!(seen, [true, true]);
    let wide = [Ipv6Block::parse("2001:db8::/32").unwrap()];
    let first = random_egress_ipv6(&wide).unwrap();
    assert!((0..50).any(|_| random_egress_ipv6(&wide).unwrap() != first));
}

#[test]
fn every_usable_address_can_be_drawn() {
    for (block, address) in [
        ("2001:db8:aaa8::/45", "2001:db8:aaab:1:2:3:4:5"),
        ("2001:db8::/32", "2001:db8::1"),
        ("::4/127", "::5"),
        ("::/0", "ffff:ffff:ffff:ffff:ffff:ffff:ffff:ffff"),
        ("2001:db8:cccc::1/128", "2001:db8:cccc::1"),
    ] {
        let ip = parse_ipv6(address).unwrap();
        assert_eq!(Ipv6Block::parse(block).unwrap().ip_from(&ip.octets), ip);
    }
}

#[test]
fn blocks_read_back_in_every_form() {
    for (text, forms) in [
        (
            "2001:DB8:0:0:1::/80",
            vec!["2001:db8::1:0:0:0/80", "2001:db8:0:0:1::/80", "2001:db8:0:0:1:0:0:0/80", "2001:db8:0:0:1::0.0.0.0/80"],
        ),
        ("::ffff:192.0.2.0/120", vec!["::ffff:192.0.2.0/120", "0:0:0:0:0:ffff:c000:200/120", "::ffff:c000:200/120"]),
        ("::9/0", vec!["::/0", "0:0:0:0:0:0:0:0/0", "::0.0.0.0/0"]),
        ("ffff::1/128", vec!["ffff::1/128", "ffff:0:0:0:0:0:0:1/128", "ffff:0::0:1/128"]),
    ] {
        let block = Ipv6Block::parse(text).unwrap();
        for form in forms {
            assert_eq!(Ipv6Block::parse(form), Ok(block), "{}", form);
        }
    }
}

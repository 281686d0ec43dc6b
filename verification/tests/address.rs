use pyrumqttd::ip::IpAddr;
use pyrumqttd::socket_addr::{InvalidAddress, SocketAddr};

fn ip_of(text: &str) -> String {
    SocketAddr::new(text, 0).unwrap().ip()
}

fn refused(text: &str) -> bool {
    SocketAddr::new(text, 0) == Err(InvalidAddress::Ip)
}

#[test]
fn new_keeps_ip_and_port() {
    let a = SocketAddr::new("127.0.0.1", 1883).unwrap();
    assert_eq!(a.ip(), "127.0.0.1");
    assert_eq!(a.port(), 1883);
    assert_eq!(a.scope_id(), 0);
    assert_eq!(a.ip_addr(), IpAddr::V4([127, 0, 0, 1]));
}

#[test]
fn new_accepts_every_port() {
    assert_eq!(SocketAddr::new("10.0.0.1", 0).unwrap().port(), 0);
    assert_eq!(SocketAddr::new("10.0.0.1", 65535).unwrap().port(), 65535);
}

#[test]
fn new_refuses_octets_out_of_range() {
    assert_eq!(SocketAddr::new("999.999.999.999", 1883), Err(InvalidAddress::Ip));
    assert!(refused("256.0.0.1"));
    assert!(refused("1.2.3.256"));
}

#[test]
fn ipv4_literals_that_are_accepted() {
    assert_eq!(ip_of("0.0.0.0"), "0.0.0.0");
    assert_eq!(ip_of("255.255.255.255"), "255.255.255.255");
    assert_eq!(ip_of("1.22.33.0"), "1.22.33.0");
    assert_eq!(ip_of("192.168.1.10"), "192.168.1.10");
    assert_eq!(SocketAddr::new("1.2.3.4", 7).unwrap().ip_addr(), IpAddr::V4([1, 2, 3, 4]));
}

#[test]
fn ipv4_literals_that_are_refused() {
    for text in [
        "", " ", "1", "1.2.3", "1.2.3.4.5", "1..2.3", ".1.2.3", "1.2.3.", "01.2.3.4", "1.2.3.04",
        "00.0.0.0", "1.2.3.4 ", " 1.2.3.4", "a.b.c.d", "1.2.3.-4", "1.2.3.+4", "1.2.3.4444",
        "0x1.2.3.4", "1.2.3.4/8", "localhost", "１.2.3.4",
    ] {
        assert!(refused(text), "{text}");
    }
}

#[test]
fn ipv6_literals_in_normal_form() {
    assert_eq!(ip_of("::"), "::");
    assert_eq!(ip_of("::1"), "::1");
    assert_eq!(ip_of("1::"), "1::");
    assert_eq!(ip_of("2001:db8::1"), "2001:db8::1");
    assert_eq!(ip_of("1:2:3:4:5:6:7:8"), "1:2:3:4:5:6:7:8");
    assert_eq!(ip_of("fe80::1:2"), "fe80::1:2");
}

#[test]
fn ipv6_literals_are_brought_to_normal_form() {
    assert_eq!(ip_of("2001:DB8::1"), "2001:db8::1");
    assert_eq!(ip_of("2001:0db8:0000:0000:0000:0000:0000:0001"), "2001:db8::1");
    assert_eq!(ip_of("0:0:0:0:0:0:0:0"), "::");
    assert_eq!(ip_of("0:0:0:0:0:0:0:1"), "::1");
    assert_eq!(ip_of("1:0:0:2:0:0:0:3"), "1:0:0:2::3");
    assert_eq!(ip_of("1:0:0:2:0:0:3:4"), "1::2:0:0:3:4");
    assert_eq!(ip_of("1:0:2:0:3:0:4:0"), "1:0:2:0:3:0:4:0");
    assert_eq!(ip_of("1:2:3:4:5:6:7::"), "1:2:3:4:5:6:7:0");
    assert_eq!(ip_of("::2:3:4:5:6:7:8"), "0:2:3:4:5:6:7:8");
    assert_eq!(ip_of("1:2:3::6:7:8"), "1:2:3::6:7:8");
    assert_eq!(ip_of("0:0:1:0:0:0:1:0"), "0:0:1::1:0");
    assert_eq!(ip_of("000a:00B0:0c00:D000::"), "a:b0:c00:d000::");
}

#[test]
fn ipv6_literals_with_an_ipv4_tail() {
    assert_eq!(ip_of("::ffff:1.2.3.4"), "::ffff:1.2.3.4");
    assert_eq!(ip_of("::FFFF:192.168.0.1"), "::ffff:192.168.0.1");
    assert_eq!(ip_of("::ffff:102:304"), "::ffff:1.2.3.4");
    assert_eq!(ip_of("::1.2.3.4"), "::102:304");
    assert_eq!(ip_of("1:2:3:4:5:6:1.2.3.4"), "1:2:3:4:5:6:102:304");
    assert_eq!(ip_of("64:ff9b::255.255.255.255"), "64:ff9b::ffff:ffff");
    assert_eq!(ip_of("::ffff:0.0.0.0"), "::ffff:0.0.0.0");
    assert_eq!(
        SocketAddr::new("::ffff:1.2.3.4", 0).unwrap().ip_addr(),
        IpAddr::V6([0, 0, 0, 0, 0, 0xffff, 0x0102, 0x0304])
    );
}

#[test]
fn ipv6_groups_are_read_as_numbers() {
    assert_eq!(
        SocketAddr::new("2001:db8:85a3::8a2e:370:7334", 0).unwrap().ip_addr(),
        IpAddr::V6([0x2001, 0x0db8, 0x85a3, 0, 0, 0x8a2e, 0x0370, 0x7334])
    );
    assert_eq!(
        SocketAddr::new("ffff:FFFF:0:10:a:A:f:F", 0).unwrap().ip_addr(),
        IpAddr::V6([0xffff, 0xffff, 0, 0x10, 0xa, 0xa, 0xf, 0xf])
    );
}

#[test]
fn ipv6_literals_that_are_refused() {
    for text in [
        ":", ":::", "1:2:3:4:5:6:7", "1:2:3:4:5:6:7:8:9", "1::2::3", "12345::", "g::", "::g",
        "1:2:3:4:5:6:7:8::", "::1:2:3:4:5:6:7:8", "1:2:3:4::5:6:7:8", "::1.2.3", "1.2.3.4::",
        "::1.2.3.4:5", "[::1]", "fe80::1%1", ":1", "1:", "1:2:3:4:5:6:7:1.2.3.4", "::1 ", " ::1",
        "::01.2.3.4", "::1.2.3.256", "1:2:3:4:5:6:7:", ":1:2:3:4:5:6:7", "::-1", "0x1::",
        "1:2:3:4:5:1.2.3.4", "::ffff:1.2.3.4.5",
    ] {
        assert!(refused(text), "{text}");
    }
}

#[test]
fn set_ip_puts_the_new_address_in_place() {
    let mut a = SocketAddr::new("127.0.0.1", 1883).unwrap();
    assert_eq!(a.set_ip("10.1.2.3"), Ok(()));
    assert_eq!(a.ip(), "10.1.2.3");
    assert_eq!(a.port(), 1883);
    assert_eq!(a.set_ip("::1"), Ok(()));
    assert_eq!(a.ip(), "::1");
    assert_eq!(a.to_string(), "[::1]:1883");
}

#[test]
fn set_ip_refuses_and_changes_nothing() {
    let mut a = SocketAddr::new("127.0.0.1", 1883).unwrap();
    assert_eq!(a.set_ip("999.999.999.999"), Err(InvalidAddress::Ip));
    assert_eq!(a.set_ip("not an address"), Err(InvalidAddress::Ip));
    assert_eq!(a.set_ip(""), Err(InvalidAddress::Ip));
    assert_eq!(a, SocketAddr::new("127.0.0.1", 1883).unwrap());
    assert_eq!(a.to_string(), "127.0.0.1:1883");
}

#[test]
fn set_ip_keeps_the_scope_between_ipv6_addresses_only() {
    let mut a = SocketAddr::from_string("[fe80::1%5]:80").unwrap();
    assert_eq!(a.set_ip("fe80::2"), Ok(()));
    assert_eq!(a.scope_id(), 5);
    assert_eq!(a.to_string(), "[fe80::2%5]:80");
    assert_eq!(a.set_ip("1.2.3.4"), Ok(()));
    assert_eq!(a.scope_id(), 0);
    assert_eq!(a.to_string(), "1.2.3.4:80");
    assert_eq!(a.set_ip("fe80::3"), Ok(()));
    assert_eq!(a.scope_id(), 0);
    assert_eq!(a.to_string(), "[fe80::3]:80");
}

#[test]
fn set_port_changes_the_port_alone() {
    let mut a = SocketAddr::from_string("[fe80::1%5]:80").unwrap();
    a.set_port(8080);
    assert_eq!(a.port(), 8080);
    assert_eq!(a.ip(), "fe80::1");
    assert_eq!(a.scope_id(), 5);
    let mut b = SocketAddr::new("1.2.3.4", 1).unwrap();
    b.set_port(0);
    assert_eq!(b.to_string(), "1.2.3.4:0");
}

#[test]
fn to_string_of_an_ipv4_address() {
    assert_eq!(SocketAddr::new("127.0.0.1", 1883).unwrap().to_string(), "127.0.0.1:1883");
    assert_eq!(SocketAddr::new("0.0.0.0", 0).unwrap().to_string(), "0.0.0.0:0");
    assert_eq!(
        SocketAddr::new("255.255.255.255", 65535).unwrap().to_string(),
        "255.255.255.255:65535"
    );
}

#[test]
fn to_string_of_an_ipv6_address() {
    assert_eq!(SocketAddr::new("::1", 8080).unwrap().to_string(), "[::1]:8080");
    assert_eq!(SocketAddr::new("::", 0).unwrap().to_string(), "[::]:0");
    assert_eq!(
        SocketAddr::new("::ffff:10.0.0.1", 443).unwrap().to_string(),
        "[::ffff:10.0.0.1]:443"
    );
    assert_eq!(
        SocketAddr::from_parts(IpAddr::V6([0xfe80, 0, 0, 0, 0, 0, 0, 1]), 1, 4294967295)
            .to_string(),
        "[fe80::1%4294967295]:1"
    );
}

#[test]
fn from_string_reads_ipv4_addresses() {
    let a = SocketAddr::from_string("127.0.0.1:1883").unwrap();
    assert_eq!(a.ip(), "127.0.0.1");
    assert_eq!(a.port(), 1883);
    assert_eq!(SocketAddr::from_string("1.2.3.4:0").unwrap().port(), 0);
    assert_eq!(SocketAddr::from_string("1.2.3.4:65535").unwrap().port(), 65535);
    assert_eq!(SocketAddr::from_string("1.2.3.4:0080").unwrap().port(), 80);
    assert_eq!(SocketAddr::from_string("1.2.3.4:000000000000000000000").unwrap().port(), 0);
}

#[test]
fn from_string_reads_ipv6_addresses() {
    let a = SocketAddr::from_string("[2001:db8::1]:8080").unwrap();
    assert_eq!(a.ip(), "2001:db8::1");
    assert_eq!(a.port(), 8080);
    assert_eq!(a.scope_id(), 0);
    let b = SocketAddr::from_string("[fe80::1%5]:80").unwrap();
    assert_eq!(b.ip(), "fe80::1");
    assert_eq!(b.scope_id(), 5);
    assert_eq!(SocketAddr::from_string("[::1%0]:80").unwrap().to_string(), "[::1]:80");
    assert_eq!(SocketAddr::from_string("[::1%007]:80").unwrap().scope_id(), 7);
    assert_eq!(
        SocketAddr::from_string("[::1%4294967295]:80").unwrap().scope_id(),
        4294967295
    );
    assert_eq!(
        SocketAddr::from_string("[::FFFF:1.2.3.4]:1").unwrap().to_string(),
        "[::ffff:1.2.3.4]:1"
    );
}

#[test]
fn from_string_refuses_what_is_no_socket_address() {
    for text in [
        "", "127.0.0.1", "127.0.0.1:", ":80", "127.0.0.1:65536", "127.0.0.1:-1", "127.0.0.1:+1",
        "127.0.0.1:80 ", " 127.0.0.1:80", "127.0.0.1:8a", "127.0.0.1::80", "999.0.0.1:80",
        "localhost:80", "::1:80", "[::1]", "[::1]:", "[::1]80", "[::1]:65536", "[::1:80",
        "::1]:80", "[127.0.0.1]:80", "[::1%]:80", "[::1%4294967296]:80", "[::1%a]:80",
        "[::1%1%2]:80", "[[::1]]:80", "[::1]x:80", "[::1]:80]", "[]:80", "[::g]:80",
        "1.2.3.4:99999999999999999999",
    ] {
        assert_eq!(
            SocketAddr::from_string(text),
            Err(InvalidAddress::SocketAddr),
            "{text}"
        );
    }
}

#[test]
fn text_of_an_address_reads_back_as_the_address() {
    for (ip, port) in [
        ("127.0.0.1", 1883u16), ("0.0.0.0", 0), ("255.255.255.255", 65535), ("::", 1),
        ("::1", 80), ("2001:db8::1", 8883), ("::ffff:1.2.3.4", 443), ("1:2:3:4:5:6:7:8", 9),
        ("1:0:0:2:0:0:0:3", 10), ("1:0:2:0:3:0:4:0", 11), ("::1.2.3.4", 12), ("1::", 13),
        ("0:0:0:0:0:0:1:0", 14), ("ffff:ffff:ffff:ffff:ffff:ffff:ffff:ffff", 15),
    ] {
        let a = SocketAddr::new(ip, port).unwrap();
        let b = SocketAddr::from_string(&a.to_string()).unwrap();
        assert_eq!(a, b);
        assert_eq!(a.ip(), b.ip());
        assert_eq!(a.port(), b.port());
        assert_eq!(a.scope_id(), b.scope_id());
    }
}

#[test]
fn text_of_a_scoped_address_reads_back_as_the_address() {
    for scope in [0u32, 1, 9, 10, 4294967295] {
        let a = SocketAddr::from_parts(IpAddr::V6([0xfe80, 0, 0, 0, 0, 0, 0xa, 1]), 1883, scope);
        let b = SocketAddr::from_string(&a.to_string()).unwrap();
        assert_eq!(a, b);
        assert_eq!(b.scope_id(), scope);
    }
}

#[test]
fn normal_form_of_an_ip_reads_back_as_the_same_ip() {
    for text in ["2001:DB8:0:0:0:0:0:1", "::FFFF:1.2.3.4", "0:0:0:0:0:0:0:0", "1.2.3.4"] {
        let a = SocketAddr::new(text, 5).unwrap();
        let b = SocketAddr::new(&a.ip(), 5).unwrap();
        assert_eq!(a, b);
        assert_eq!(a.ip(), b.ip());
    }
}

#[test]
fn from_parts_drops_the_scope_of_an_ipv4_address() {
    let a = SocketAddr::from_parts(IpAddr::V4([1, 2, 3, 4]), 80, 7);
    assert_eq!(a.scope_id(), 0);
    assert_eq!(a, SocketAddr::new("1.2.3.4", 80).unwrap());
    let b = SocketAddr::from_parts(IpAddr::V6([0, 0, 0, 0, 0, 0, 0, 1]), 80, 7);
    assert_eq!(b.scope_id(), 7);
    assert_eq!(b.ip_addr(), IpAddr::V6([0, 0, 0, 0, 0, 0, 0, 1]));
}

#[test]
fn messages_of_the_two_refusals() {
    assert_eq!(InvalidAddress::Ip.message(), "Invalid IP address");
    assert_eq!(InvalidAddress::SocketAddr.message(), "Invalid socket address format");
}

#[test]
fn a_copy_of_an_address_is_a_value_apart() {
    let a = SocketAddr::new("127.0.0.1", 1883).unwrap();
    let mut b = a.clone();
    b.set_port(1);
    assert_eq!(a.port(), 1883);
    assert_eq!(b.port(), 1);
}

#[test]
fn ipv6_literals_with_one_group_of_zeros_for_the_gap() {
    assert_eq!(ip_of("1:2:3:4::5:6:7"), "1:2:3:4:0:5:6:7");
    assert_eq!(ip_of("1:2:3:4:5:6::8"), "1:2:3:4:5:6:0:8");
    assert_eq!(ip_of("1:2:3:4:5::1.2.3.4"), "1:2:3:4:5:0:102:304");
    assert_eq!(ip_of("0::0:0:0:0:0:0"), "::");
    assert_eq!(ip_of("0:0::0:0:0:0:0"), "::");
    assert!(refused("0:0:0:0::0:0:0:0"));
    assert!(refused("1:2:3:4::5:6:7:8"));
    assert!(refused("1:2:3:4:5:6::1.2.3.4"));
}

#[test]
fn the_first_of_the_longest_runs_of_zeros_is_left_out() {
    assert_eq!(ip_of("0:0:1:0:0:1:0:0"), "::1:0:0:1:0:0");
    assert_eq!(ip_of("1:0:0:0:1:0:0:0"), "1::1:0:0:0");
    assert_eq!(ip_of("1:0:0:1:0:0:0:1"), "1:0:0:1::1");
    assert_eq!(ip_of("0:1:0:1:0:1:0:1"), "0:1:0:1:0:1:0:1");
    assert_eq!(ip_of("0:1:1:1:1:1:1:0"), "0:1:1:1:1:1:1:0");
    assert_eq!(ip_of("1:1:1:1:1:1:0:0"), "1:1:1:1:1:1::");
    assert_eq!(ip_of("0:0:1:1:1:1:1:1"), "::1:1:1:1:1:1");
}

#[test]
fn addresses_that_hold_an_ipv4_address_are_written_with_it() {
    assert_eq!(ip_of("0:0:0:0:0:ffff:0:0"), "::ffff:0.0.0.0");
    assert_eq!(ip_of("::ffff:ffff:ffff"), "::ffff:255.255.255.255");
    assert_eq!(ip_of("::ffff:c000:221"), "::ffff:192.0.2.33");
    assert_eq!(ip_of("0:0:0:0:0:fffe:1:2"), "::fffe:1:2");
    assert_eq!(ip_of("0:0:0:0:1:ffff:1:2"), "::1:ffff:1:2");
    assert_eq!(ip_of("64:ff9b::192.0.2.33"), "64:ff9b::c000:221");
    assert_eq!(ip_of("::0.0.0.0"), "::");
    assert_eq!(ip_of("::0.0.0.1"), "::1");
    assert_eq!(ip_of("::255.255.255.255"), "::ffff:ffff");
    assert_eq!(ip_of("1::1.2.3.4"), "1::102:304");
    for text in ["1::1.2.3.4.5", "1:1.2.3.4::", "::1.2.3.4::", "fe80::1%eth0", "1.2.3.4%1", "0000a::", "::::"] {
        assert!(refused(text), "{text}");
    }
}

struct Lcg(u64);

impl Lcg {
    fn next(&mut self) -> u64 {
        self.0 = self.0.wrapping_mul(6364136223846793005).wrapping_add(1442695040888963407);
        self.0 >> 33
    }

    fn group(&mut self) -> u16 {
        match self.next() % 4 {
            0 | 1 => 0,
            2 => (self.next() % 16) as u16,
            _ => self.next() as u16,
        }
    }
}

#[test]
fn text_of_many_ipv6_addresses_reads_back_as_the_address() {
    let mut rng = Lcg(2024);
    for round in 0..5000 {
        let mut groups = [0u16; 8];
        for g in groups.iter_mut() {
            *g = rng.group();
        }
        if round % 7 == 0 {
            groups[0] = 0;
            groups[1] = 0;
            groups[2] = 0;
            groups[3] = 0;
            groups[4] = 0;
            groups[5] = if round % 2 == 0 { 0xffff } else { 0 };
        }
        let port = rng.next() as u16;
        let scope = if round % 3 == 0 { 0 } else { rng.next() as u32 };
        let a = SocketAddr::from_parts(IpAddr::V6(groups), port, scope);
        assert_eq!(SocketAddr::from_string(&a.to_string()), Ok(a));
        let b = SocketAddr::new(&a.ip(), port).unwrap();
        assert_eq!(b.ip_addr(), IpAddr::V6(groups));
        assert_eq!(b.ip(), a.ip());
        assert_eq!(b.scope_id(), 0);
    }
}

#[test]
fn text_of_many_ipv4_addresses_reads_back_as_the_address() {
    let mut rng = Lcg(7);
    for _ in 0..5000 {
        let bits = rng.next() as u32 ^ ((rng.next() as u32) << 16);
        let octets = bits.to_be_bytes();
        let port = rng.next() as u16;
        let a = SocketAddr::from_parts(IpAddr::V4(octets), port, 0);
        assert_eq!(SocketAddr::from_string(&a.to_string()), Ok(a));
        assert_eq!(SocketAddr::new(&a.ip(), port), Ok(a));
    }
}

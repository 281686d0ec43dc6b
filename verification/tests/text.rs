use pyrumqttd::ipv4::{read_ipv4, read_octet};
use pyrumqttd::ipv6::{find_zero_run, read_group, read_ipv6, read_side, zero_run_at};
use pyrumqttd::numeral::{digit_text, push_number, read_digit, read_number};
use pyrumqttd::text::{chars_of, find_from, find_pair, split_on};

fn chars(s: &str) -> Vec<char> {
    s.chars().collect()
}

fn pieces(s: &str, c: char) -> Vec<String> {
    let text = chars(s);
    split_on(&text, c).into_iter().map(|p| p.iter().collect()).collect()
}

fn written(n: u64, radix: u32) -> String {
    let mut out = String::from(">");
    push_number(&mut out, n, radix);
    out
}

#[test]
fn chars_of_gives_every_character() {
    assert_eq!(chars_of("a.b"), vec!['a', '.', 'b']);
    assert_eq!(chars_of(""), Vec::<char>::new());
    assert_eq!(chars_of("é1"), vec!['é', '1']);
}

#[test]
fn find_from_gives_the_first_position() {
    let text = chars("a:b:c");
    assert_eq!(find_from(&text, 0, ':'), 1);
    assert_eq!(find_from(&text, 1, ':'), 1);
    assert_eq!(find_from(&text, 2, ':'), 3);
    assert_eq!(find_from(&text, 4, ':'), 5);
    assert_eq!(find_from(&text, 5, ':'), 5);
    assert_eq!(find_from(&text, 0, '.'), 5);
}

#[test]
fn find_pair_gives_the_first_pair() {
    assert_eq!(find_pair(&chars("a::b::c"), ':'), 1);
    assert_eq!(find_pair(&chars("::"), ':'), 0);
    assert_eq!(find_pair(&chars(":::"), ':'), 0);
    assert_eq!(find_pair(&chars("a:b:c"), ':'), 5);
    assert_eq!(find_pair(&chars("a:b:"), ':'), 4);
    assert_eq!(find_pair(&chars(":"), ':'), 1);
    assert_eq!(find_pair(&chars(""), ':'), 0);
}

#[test]
fn split_on_gives_the_pieces_between_separators() {
    assert_eq!(pieces("1.2.3.4", '.'), ["1", "2", "3", "4"]);
    assert_eq!(pieces("abc", '.'), ["abc"]);
    assert_eq!(pieces("", '.'), [""]);
    assert_eq!(pieces(".", '.'), ["", ""]);
    assert_eq!(pieces("a..b", '.'), ["a", "", "b"]);
    assert_eq!(pieces(".a.", '.'), ["", "a", ""]);
}

#[test]
fn read_digit_knows_both_cases() {
    assert_eq!(read_digit('0', 10), Some(0));
    assert_eq!(read_digit('9', 10), Some(9));
    assert_eq!(read_digit('a', 10), None);
    assert_eq!(read_digit('a', 16), Some(10));
    assert_eq!(read_digit('F', 16), Some(15));
    assert_eq!(read_digit('g', 16), None);
    assert_eq!(read_digit('G', 16), None);
    assert_eq!(read_digit('/', 16), None);
    assert_eq!(read_digit(':', 16), None);
    assert_eq!(read_digit('@', 16), None);
    assert_eq!(read_digit('`', 16), None);
    assert_eq!(read_digit('7', 2), None);
}

#[test]
fn read_number_reads_up_to_the_bound() {
    assert_eq!(read_number(&chars("0"), 10, 0), Some(0));
    assert_eq!(read_number(&chars("255"), 10, 255), Some(255));
    assert_eq!(read_number(&chars("256"), 10, 255), None);
    assert_eq!(read_number(&chars("000255"), 10, 255), Some(255));
    assert_eq!(read_number(&chars("4294967295"), 10, u32::MAX), Some(u32::MAX));
    assert_eq!(read_number(&chars("4294967296"), 10, u32::MAX), None);
    assert_eq!(read_number(&chars("99999999999999999999999"), 10, u32::MAX), None);
    assert_eq!(read_number(&chars("ffff"), 16, 0xffff), Some(0xffff));
    assert_eq!(read_number(&chars("FfFf"), 16, 0xffff), Some(0xffff));
    assert_eq!(read_number(&chars("10000"), 16, 0xffff), None);
    assert_eq!(read_number(&chars(""), 10, 255), None);
    assert_eq!(read_number(&chars("1a"), 10, 255), None);
    assert_eq!(read_number(&chars("-1"), 10, 255), None);
}

#[test]
fn push_number_writes_the_shortest_numeral() {
    assert_eq!(written(0, 10), ">0");
    assert_eq!(written(9, 10), ">9");
    assert_eq!(written(10, 10), ">10");
    assert_eq!(written(255, 10), ">255");
    assert_eq!(written(65535, 10), ">65535");
    assert_eq!(written(4294967295, 10), ">4294967295");
    assert_eq!(written(u64::MAX, 10), ">18446744073709551615");
    assert_eq!(written(u64::MAX, 16), ">ffffffffffffffff");
    assert_eq!(written(0, 16), ">0");
    assert_eq!(written(0xa, 16), ">a");
    assert_eq!(written(0x10, 16), ">10");
    assert_eq!(written(0xdb8, 16), ">db8");
    assert_eq!(written(0xffff, 16), ">ffff");
    assert_eq!(written(5, 2), ">101");
}

#[test]
fn digit_text_is_one_digit_in_lower_case() {
    let all: String = (0..16).map(digit_text).collect();
    assert_eq!(all, "0123456789abcdef");
}

#[test]
fn read_octet_takes_no_zero_in_front() {
    assert_eq!(read_octet(&chars("0")), Some(0));
    assert_eq!(read_octet(&chars("7")), Some(7));
    assert_eq!(read_octet(&chars("255")), Some(255));
    assert_eq!(read_octet(&chars("256")), None);
    assert_eq!(read_octet(&chars("00")), None);
    assert_eq!(read_octet(&chars("007")), None);
    assert_eq!(read_octet(&chars("0255")), None);
    assert_eq!(read_octet(&chars("")), None);
    assert_eq!(read_octet(&chars("1a")), None);
}

#[test]
fn read_ipv4_gives_the_octets() {
    assert_eq!(read_ipv4(&chars("1.2.3.4")), Some([1, 2, 3, 4]));
    assert_eq!(read_ipv4(&chars("255.0.10.100")), Some([255, 0, 10, 100]));
    assert_eq!(read_ipv4(&chars("1.2.3")), None);
    assert_eq!(read_ipv4(&chars("1.2.3.4.")), None);
}

#[test]
fn read_group_takes_up_to_four_digits() {
    assert_eq!(read_group(&chars("0")), Some(0));
    assert_eq!(read_group(&chars("0000")), Some(0));
    assert_eq!(read_group(&chars("00ff")), Some(0xff));
    assert_eq!(read_group(&chars("FFFF")), Some(0xffff));
    assert_eq!(read_group(&chars("00000")), None);
    assert_eq!(read_group(&chars("")), None);
    assert_eq!(read_group(&chars("12g")), None);
}

#[test]
fn read_side_gives_the_groups_of_one_side() {
    assert_eq!(read_side(&chars(""), false), Some(vec![]));
    assert_eq!(read_side(&chars("1:2:3"), false), Some(vec![1, 2, 3]));
    assert_eq!(read_side(&chars("1:1.2.3.4"), true), Some(vec![1, 0x0102, 0x0304]));
    assert_eq!(read_side(&chars("1:1.2.3.4"), false), None);
    assert_eq!(read_side(&chars("1.2.3.4:1"), true), None);
    assert_eq!(read_side(&chars("1::2"), true), None);
    assert_eq!(read_side(&chars("1:2:3:4:5:6:7:8:9:a"), true), Some(vec![1, 2, 3, 4, 5, 6, 7, 8, 9, 10]));
}

#[test]
fn read_ipv6_fills_the_gap_with_zeros() {
    assert_eq!(read_ipv6(&chars("1::2")), Some([1, 0, 0, 0, 0, 0, 0, 2]));
    assert_eq!(read_ipv6(&chars("1:2:3:4:5:6:7::")), Some([1, 2, 3, 4, 5, 6, 7, 0]));
    assert_eq!(read_ipv6(&chars("::1:2:3:4:5:6:7")), Some([0, 1, 2, 3, 4, 5, 6, 7]));
    assert_eq!(read_ipv6(&chars("1:2::1.2.3.4")), Some([1, 2, 0, 0, 0, 0, 0x0102, 0x0304]));
    assert_eq!(read_ipv6(&chars("1:2:3:4:5::1.2.3.4")), Some([1, 2, 3, 4, 5, 0, 0x0102, 0x0304]));
    assert_eq!(read_ipv6(&chars("1:2:3:4:5:6::1.2.3.4")), None);
    assert_eq!(read_ipv6(&chars("1:2:3:4:5:6:7:8")), Some([1, 2, 3, 4, 5, 6, 7, 8]));
}

#[test]
fn zero_runs_are_found() {
    let groups = [1, 0, 0, 2, 0, 0, 0, 3];
    assert_eq!(zero_run_at(&groups, 0), 0);
    assert_eq!(zero_run_at(&groups, 1), 2);
    assert_eq!(zero_run_at(&groups, 2), 1);
    assert_eq!(zero_run_at(&groups, 4), 3);
    assert_eq!(zero_run_at(&groups, 8), 0);
    assert_eq!(find_zero_run(&groups), (4, 3));
    assert_eq!(find_zero_run(&[1, 0, 0, 2, 0, 0, 3, 4]), (1, 2));
    assert_eq!(find_zero_run(&[0; 8]), (0, 8));
    assert_eq!(find_zero_run(&[1, 2, 3, 4, 5, 6, 7, 8]), (0, 0));
    assert_eq!(find_zero_run(&[1, 2, 3, 4, 5, 6, 7, 0]), (7, 1));
    assert_eq!(find_zero_run(&[0, 0, 1, 0, 0, 0, 1, 0]), (3, 3));
}

use characters::attribute::{Attribute, NetworkAddress};
use characters::report::{push_attribute_line, push_entry, render_block};
use characters::text::{push_address, push_decimal, push_flag, push_hexadecimal};

fn decimal(n: u64) -> String {
    let mut out = String::new();
    push_decimal(&mut out, n);
    out
}

fn hexadecimal(n: u16) -> String {
    let mut out = String::new();
    push_hexadecimal(&mut out, n);
    out
}

fn address(value: NetworkAddress) -> String {
    let mut out = String::new();
    push_address(&mut out, &value);
    out
}

#[test]
fn decimal_notation() {
    assert_eq!(decimal(0), "0");
    assert_eq!(decimal(7), "7");
    assert_eq!(decimal(10), "10");
    assert_eq!(decimal(100), "100");
    assert_eq!(decimal(255), "255");
    assert_eq!(decimal(1_000_000_007), "1000000007");
    assert_eq!(decimal(u64::MAX), "18446744073709551615");
}

#[test]
fn decimal_is_appended() {
    let mut out = String::from("ID ");
    push_decimal(&mut out, 42);
    assert_eq!(out, "ID 42");
}

#[test]
fn hexadecimal_notation() {
    assert_eq!(hexadecimal(0), "0");
    assert_eq!(hexadecimal(9), "9");
    assert_eq!(hexadecimal(10), "a");
    assert_eq!(hexadecimal(15), "f");
    assert_eq!(hexadecimal(16), "10");
    assert_eq!(hexadecimal(0x0db8), "db8");
    assert_eq!(hexadecimal(0xffff), "ffff");
    for n in [1u16, 0x1f, 0x100, 0xabc, 0xdead, 0xbeef] {
        assert_eq!(hexadecimal(n), format!("{:x}", n));
    }
}

#[test]
fn flags_as_words() {
    let mut out = String::new();
    push_flag(&mut out, true);
    out.push(' ');
    push_flag(&mut out, false);
    assert_eq!(out, "true false");
}

#[test]
fn ipv4_in_dotted_decimal() {
    assert_eq!(address(NetworkAddress::V4([127, 0, 0, 1])), "127.0.0.1");
    assert_eq!(address(NetworkAddress::V4([0, 0, 0, 0])), "0.0.0.0");
    assert_eq!(address(NetworkAddress::V4([255, 255, 255, 255])), "255.255.255.255");
    assert_eq!(address(NetworkAddress::V4([192, 168, 1, 20])), "192.168.1.20");
}

#[test]
fn ipv6_shortened() {
    assert_eq!(address(NetworkAddress::V6([0, 0, 0, 0, 0, 0, 0, 1])), "::1");
    assert_eq!(address(NetworkAddress::V6([0, 0, 0, 0, 0, 0, 0, 0])), "::");
    assert_eq!(
        address(NetworkAddress::V6([0x2001, 0x0db8, 0, 0, 0, 0, 0, 1])),
        "2001:db8::1"
    );
    assert_eq!(
        address(NetworkAddress::V6([0xfe80, 0, 0, 0, 0x0202, 0xb3ff, 0xfe1e, 0x8329])),
        "fe80::202:b3ff:fe1e:8329"
    );
    assert_eq!(address(NetworkAddress::V6([1, 0, 0, 0, 0, 0, 0, 0])), "1::");
}

#[test]
fn ipv6_shortens_the_first_longest_run_only() {
    assert_eq!(
        address(NetworkAddress::V6([1, 0, 0, 2, 0, 0, 3, 4])),
        "1::2:0:0:3:4"
    );
    assert_eq!(
        address(NetworkAddress::V6([1, 0, 0, 2, 0, 0, 0, 4])),
        "1:0:0:2::4"
    );
    assert_eq!(
        address(NetworkAddress::V6([1, 0, 2, 0, 3, 0, 4, 0])),
        "1:0:2:0:3:0:4:0"
    );
    assert_eq!(
        address(NetworkAddress::V6([1, 2, 3, 4, 5, 6, 7, 8])),
        "1:2:3:4:5:6:7:8"
    );
    assert_eq!(
        address(NetworkAddress::V6([0, 0, 1, 2, 3, 4, 0, 0])),
        "::1:2:3:4:0:0"
    );
}

#[test]
fn ipv6_mapped_ipv4() {
    assert_eq!(
        address(NetworkAddress::V6([0, 0, 0, 0, 0, 0xffff, 0xc0a8, 0x0114])),
        "::ffff:192.168.1.20"
    );
    assert_eq!(
        address(NetworkAddress::V6([0, 0, 0, 0, 0, 0xffff, 0, 0])),
        "::ffff:0.0.0.0"
    );
}

#[test]
fn ipv6_further_shapes() {
    let cases: [([u16; 8], &str); 10] = [
        ([0, 0, 0, 0, 0, 0, 1, 0], "::1:0"),
        ([0, 0, 0, 0, 0, 0xffff, 0x7f00, 1], "::ffff:127.0.0.1"),
        ([0, 0, 0, 0, 0, 0xfffe, 0x7f00, 1], "::fffe:7f00:1"),
        ([0, 0, 0, 0, 1, 0xffff, 0x7f00, 1], "::1:ffff:7f00:1"),
        ([0x2001, 0xdb8, 0, 0, 1, 0, 0, 1], "2001:db8::1:0:0:1"),
        ([0x2001, 0xdb8, 0, 1, 0, 0, 0, 1], "2001:db8:0:1::1"),
        ([0x2001, 0, 0, 0, 1, 0, 0, 0], "2001::1:0:0:0"),
        ([0xff02, 0, 0, 0, 0, 0, 0, 0xfb], "ff02::fb"),
        (
            [0xffff, 0xffff, 0xffff, 0xffff, 0xffff, 0xffff, 0xffff, 0xffff],
            "ffff:ffff:ffff:ffff:ffff:ffff:ffff:ffff",
        ),
        ([0x1000, 0x100, 0x10, 0x1, 0, 0, 0xa, 0xabcd], "1000:100:10:1::a:abcd"),
    ];
    for (groups, expected) in cases {
        assert_eq!(address(NetworkAddress::V6(groups)), expected);
    }
}

#[test]
fn attribute_lines() {
    let mut out = String::new();
    push_attribute_line(&mut out, &Attribute::Name("Fisherman".to_string()));
    push_attribute_line(&mut out, &Attribute::Health(100));
    push_attribute_line(&mut out, &Attribute::Killable(true));
    push_attribute_line(
        &mut out,
        &Attribute::NetworkAddress(NetworkAddress::V4([127, 0, 0, 1])),
    );
    assert_eq!(
        out,
        "\t\tName:\t\tFisherman\n\t\tHealth:\t\t100\n\t\tKillable:\ttrue\n\t\tIP:\t\t127.0.0.1\n"
    );
}

#[test]
fn entry_is_numbered() {
    let mut out = String::new();
    push_entry(&mut out, 12, &vec![Attribute::Health(0), Attribute::Killable(false)]);
    assert_eq!(out, "\tID 12:\n\t\tHealth:\t\t0\n\t\tKillable:\tfalse\n");
}

#[test]
fn block_numbers_rows_by_position() {
    let rows = vec![
        vec![Attribute::Name("a".to_string())],
        vec![Attribute::Name("b".to_string())],
        vec![],
    ];
    assert_eq!(
        render_block("HEAD", &rows),
        "HEAD\n\tID 0:\n\t\tName:\t\ta\n\tID 1:\n\t\tName:\t\tb\n\tID 2:\n"
    );
    assert_eq!(render_block("EMPTY", &Vec::new()), "EMPTY\n");
}

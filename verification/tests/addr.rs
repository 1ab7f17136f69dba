use gpu_arbiter::addr::{read_address, IpAddr};

#[test]
fn four_bytes_are_written_in_decimal() {
    assert_eq!(
        read_address("192.168.0.255"),
        Some(IpAddr::V4([192, 168, 0, 255]))
    );
    assert_eq!(read_address("0.0.0.0"), Some(IpAddr::V4([0, 0, 0, 0])));
    for s in [
        "", "1.2.3", "1.2.3.4.5", "1.2.3.256", "1.2.3.04", "1.2.3.", "1.2.3.+4", "1.2.3.4 ",
        "1.2.3.a", "1.2.3.0004", "1.2.3.4:5",
    ] {
        assert_eq!(read_address(s), None, "{s}");
    }
}

#[test]
fn eight_groups_are_written_in_hexadecimal() {
    assert_eq!(
        read_address("1:2:3:4:5:6:7:8"),
        Some(IpAddr::V6([1, 2, 3, 4, 5, 6, 7, 8]))
    );
    assert_eq!(
        read_address("fe80::AbCd:01"),
        Some(IpAddr::V6([0xfe80, 0, 0, 0, 0, 0, 0xabcd, 1]))
    );
    assert_eq!(
        read_address("2001:db8::"),
        Some(IpAddr::V6([0x2001, 0xdb8, 0, 0, 0, 0, 0, 0]))
    );
    assert_eq!(read_address("::"), Some(IpAddr::V6([0; 8])));
    assert_eq!(
        read_address("1:2:3:4:5:6:7::"),
        Some(IpAddr::V6([1, 2, 3, 4, 5, 6, 7, 0]))
    );
    assert_eq!(
        read_address("::ffff:127.0.0.1"),
        Some(IpAddr::V6([0, 0, 0, 0, 0, 0xffff, 0x7f00, 1]))
    );
    assert_eq!(
        read_address("1:2:3:4:5:6:1.2.3.4"),
        Some(IpAddr::V6([1, 2, 3, 4, 5, 6, 0x102, 0x304]))
    );
    for s in [
        ":", ":::", "1:2:3:4:5:6:7", "1:2:3:4:5:6:7:8:9", "1:2:3:4:5:6:7::8", "1::2::3", "12345::",
        "g::", "1.2.3.4::", "::1.2.3.4:5", "1:2:3:4:5:6:7:1.2.3.4", "::1%eth0", "[::1]", ":1::",
        "::1:",
    ] {
        assert_eq!(read_address(s), None, "{s}");
    }
}

use v6header::address::V6Address;

fn text(groups: [u16; 8]) -> String {
    V6Address { groups }.to_text()
}

#[test]
fn zero_address_is_two_colons() {
    assert_eq!(text([0; 8]), "::");
}

#[test]
fn full_address_has_no_compression() {
    assert_eq!(text([0xffff; 8]), "ffff:ffff:ffff:ffff:ffff:ffff:ffff:ffff");
}

#[test]
fn longest_run_of_zeros_is_left_out() {
    assert_eq!(text([0x2001, 0xdb8, 0, 0, 1, 0, 0, 1]), "2001:db8::1:0:0:1");
    assert_eq!(text([0x2001, 0, 0, 1, 0, 0, 0, 1]), "2001:0:0:1::1");
    assert_eq!(text([0, 0, 0, 0, 0, 0, 0, 1]), "::1");
    assert_eq!(text([1, 0, 0, 0, 0, 0, 0, 0]), "1::");
    assert_eq!(text([0xdb82, 0, 0, 0, 0, 0, 0, 0]), "db82::");
    assert_eq!(text([0x120, 0x2000, 0, 0, 0, 0, 0, 0]), "120:2000::");
}

#[test]
fn single_zero_group_is_written_out() {
    assert_eq!(text([1, 0, 2, 0, 3, 0, 4, 0]), "1:0:2:0:3:0:4:0");
    assert_eq!(text([0, 1, 2, 3, 4, 5, 6, 7]), "0:1:2:3:4:5:6:7");
}

#[test]
fn mapped_address_is_written_with_dots() {
    assert_eq!(text([0, 0, 0, 0, 0, 0xffff, 0xc000, 0x0280]), "::ffff:192.0.2.128");
    assert_eq!(text([0, 0, 0, 0, 0, 0xffff, 0, 0]), "::ffff:0.0.0.0");
    assert_eq!(text([0, 0, 0, 0, 0, 0xffff, 0xffff, 0xffff]), "::ffff:255.255.255.255");
}

#[test]
fn many_addresses_have_their_canonical_text() {
    assert_eq!(text([0xa0b, 0, 0x100, 0, 0, 0xabcd, 0, 0xa0b]), "a0b:0:100::abcd:0:a0b");
    assert_eq!(text([0, 0xabcd, 1, 0, 0, 0x100, 0x100, 0]), "0:abcd:1::100:100:0");
    assert_eq!(text([1, 0, 0xabcd, 0x100, 0, 0, 1, 0]), "1:0:abcd:100::1:0");
    assert_eq!(text([0x100, 0, 1, 0, 0xabcd, 0, 0xffff, 0x100]), "100:0:1:0:abcd:0:ffff:100");
    assert_eq!(text([0, 0xabcd, 0, 0xffff, 0xabcd, 0, 0, 1]), "0:abcd:0:ffff:abcd::1");
    assert_eq!(text([0xa0b, 0, 0xabcd, 0, 0, 1, 0x10, 0xabcd]), "a0b:0:abcd::1:10:abcd");
    assert_eq!(text([0x100, 0xa0b, 0x10, 0x10, 0xa0b, 0xffff, 1, 0]), "100:a0b:10:10:a0b:ffff:1:0");
    assert_eq!(
        text([1, 0, 0xffff, 0xabcd, 0x10, 0xa0b, 0x10, 0xffff]),
        "1:0:ffff:abcd:10:a0b:10:ffff"
    );
    assert_eq!(text([0, 0, 0xabcd, 0x100, 0, 0xa0b, 0, 0x10]), "::abcd:100:0:a0b:0:10");
    assert_eq!(text([0x100, 0, 0, 0xabcd, 0xa0b, 0xa0b, 0xa0b, 0x10]), "100::abcd:a0b:a0b:a0b:10");
    assert_eq!(text([0x10, 0, 0, 0xffff, 0x10, 0, 0, 0xffff]), "10::ffff:10:0:0:ffff");
    assert_eq!(text([0x10, 0xffff, 0x100, 0xa0b, 0, 0x10, 0xa0b, 0]), "10:ffff:100:a0b:0:10:a0b:0");
    assert_eq!(text([0, 0x10, 0, 1, 0xffff, 0, 1, 0x100]), "0:10:0:1:ffff:0:1:100");
    assert_eq!(text([0x100, 0x10, 0, 0, 0x10, 0x100, 0xabcd, 0xffff]), "100:10::10:100:abcd:ffff");
    assert_eq!(
        text([0, 0x100, 0xabcd, 0xffff, 0x100, 0xa0b, 0x100, 1]),
        "0:100:abcd:ffff:100:a0b:100:1"
    );
    assert_eq!(text([0, 0, 0, 0, 1, 1, 0, 0x10]), "::1:1:0:10");
    assert_eq!(text([0, 0xffff, 0xffff, 0, 0, 0x100, 0xabcd, 0xa0b]), "0:ffff:ffff::100:abcd:a0b");
    assert_eq!(
        text([0xa0b, 0, 0xabcd, 0, 0x10, 0xabcd, 0x100, 0x100]),
        "a0b:0:abcd:0:10:abcd:100:100"
    );
    assert_eq!(text([0x100, 0x100, 0, 0x10, 0x100, 0, 1, 0]), "100:100:0:10:100:0:1:0");
    assert_eq!(text([1, 0x10, 0, 0, 0xa0b, 0, 0, 0]), "1:10:0:0:a0b::");
    assert_eq!(text([0, 0xabcd, 0, 0xa0b, 0, 0, 1, 0x100]), "0:abcd:0:a0b::1:100");
    assert_eq!(text([0, 0xffff, 0xa0b, 0xa0b, 0x10, 0, 0, 0x10]), "0:ffff:a0b:a0b:10::10");
    assert_eq!(text([0x10, 0x10, 0x10, 0xffff, 0, 0, 0, 0xa0b]), "10:10:10:ffff::a0b");
    assert_eq!(text([0xffff, 0x10, 0, 0xabcd, 0, 1, 0xabcd, 0xa0b]), "ffff:10:0:abcd:0:1:abcd:a0b");
    assert_eq!(
        text([0, 0xabcd, 0, 0xabcd, 0xffff, 0, 0xffff, 0xabcd]),
        "0:abcd:0:abcd:ffff:0:ffff:abcd"
    );
    assert_eq!(
        text([0xa0b, 0, 0xa0b, 1, 0xabcd, 0xabcd, 0xabcd, 0xa0b]),
        "a0b:0:a0b:1:abcd:abcd:abcd:a0b"
    );
    assert_eq!(text([1, 1, 1, 0x100, 1, 1, 0xabcd, 0x10]), "1:1:1:100:1:1:abcd:10");
    assert_eq!(text([0xa0b, 0, 0, 0xffff, 0x10, 0xffff, 1, 0xa0b]), "a0b::ffff:10:ffff:1:a0b");
    assert_eq!(text([0x10, 0xa0b, 0xa0b, 0, 1, 0, 1, 0x10]), "10:a0b:a0b:0:1:0:1:10");
    assert_eq!(text([1, 0xa0b, 1, 0x10, 0, 0x10, 0xa0b, 0]), "1:a0b:1:10:0:10:a0b:0");
    assert_eq!(text([0, 0x100, 1, 0x10, 0, 0x100, 0xa0b, 0]), "0:100:1:10:0:100:a0b:0");
    assert_eq!(text([0x100, 0x10, 0x100, 0, 0, 0, 0, 0]), "100:10:100::");
    assert_eq!(text([0, 0x10, 0, 0x10, 0xa0b, 0, 0xabcd, 0xabcd]), "0:10:0:10:a0b:0:abcd:abcd");
    assert_eq!(text([0, 0, 0, 0, 0xabcd, 0, 0x100, 1]), "::abcd:0:100:1");
    assert_eq!(text([1, 0, 0xffff, 1, 0xffff, 0xabcd, 1, 0xa0b]), "1:0:ffff:1:ffff:abcd:1:a0b");
    assert_eq!(
        text([0xffff, 0xabcd, 0x100, 0, 0, 0xa0b, 0x10, 0xabcd]),
        "ffff:abcd:100::a0b:10:abcd"
    );
    assert_eq!(
        text([0x100, 0xabcd, 0, 0xabcd, 0, 0xabcd, 0xabcd, 0]),
        "100:abcd:0:abcd:0:abcd:abcd:0"
    );
    assert_eq!(text([0x10, 0, 0, 0, 0, 0, 0x10, 0]), "10::10:0");
    assert_eq!(
        text([0xabcd, 0, 0xa0b, 0xabcd, 0xabcd, 0xabcd, 0x10, 0]),
        "abcd:0:a0b:abcd:abcd:abcd:10:0"
    );
    assert_eq!(text([0xabcd, 0, 1, 1, 0xffff, 0, 0, 0xabcd]), "abcd:0:1:1:ffff::abcd");
    assert_eq!(
        text([0x10, 0xabcd, 0, 0, 0x10, 0xa0b, 0xabcd, 0xabcd]),
        "10:abcd::10:a0b:abcd:abcd"
    );
    assert_eq!(
        text([1, 0xffff, 0x10, 0xabcd, 0xabcd, 0x10, 0xabcd, 1]),
        "1:ffff:10:abcd:abcd:10:abcd:1"
    );
    assert_eq!(text([0xabcd, 0xffff, 0xabcd, 1, 0x10, 0, 0x100, 0]), "abcd:ffff:abcd:1:10:0:100:0");
    assert_eq!(text([0x100, 0x10, 0xa0b, 0, 1, 0x100, 0, 1]), "100:10:a0b:0:1:100:0:1");
    assert_eq!(text([0xffff, 0, 0, 0xa0b, 0, 0xffff, 0, 0x10]), "ffff::a0b:0:ffff:0:10");
    assert_eq!(text([1, 0, 0x100, 0x10, 0, 1, 0, 0x100]), "1:0:100:10:0:1:0:100");
    assert_eq!(
        text([0xabcd, 0x100, 0xa0b, 0x100, 1, 0xa0b, 0xa0b, 0]),
        "abcd:100:a0b:100:1:a0b:a0b:0"
    );
    assert_eq!(text([0xa0b, 0, 0xa0b, 0xabcd, 0x10, 0x10, 0, 0x100]), "a0b:0:a0b:abcd:10:10:0:100");
}

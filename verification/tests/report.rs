use v6header::header::V6Header;

#[test]
fn report_of_the_sample_header() {
    let text =
        "6000000008013affdb8200000000000000000000000000000120200000000000000000000000000000000001";
    let report = V6Header::new(text).unwrap().report();
    assert_eq!(
        report,
        "version: 6\n\
         traffic_class: 0\n\
         flow label: 0\n\
         payload length: 2049\n\
         next header: 58\n\
         hop limit: 255\n\
         source address: db82::\n\
         destination address: 120:2000::\n"
    );
}

#[test]
fn report_of_the_zero_header() {
    let report = V6Header::new(&"0".repeat(80)).unwrap().report();
    assert_eq!(
        report,
        "version: 0\n\
         traffic_class: 0\n\
         flow label: 0\n\
         payload length: 0\n\
         next header: 0\n\
         hop limit: 0\n\
         source address: ::\n\
         destination address: ::\n"
    );
}

#[test]
fn report_of_the_largest_header() {
    let report = V6Header::new(&"f".repeat(80)).unwrap().report();
    assert_eq!(
        report,
        "version: 15\n\
         traffic_class: 255\n\
         flow label: 1048575\n\
         payload length: 65535\n\
         next header: 255\n\
         hop limit: 255\n\
         source address: ffff:ffff:ffff:ffff:ffff:ffff:ffff:ffff\n\
         destination address: ffff:ffff:ffff:ffff:ffff:ffff:ffff:ffff\n"
    );
}

#[test]
fn report_of_a_header_with_every_field_set() {
    let text = "6abcdef01234114020010db885a3000000008a2e03707334fe800000000000000202b3fffe1e8329";
    let report = V6Header::new(text).unwrap().report();
    assert_eq!(
        report,
        "version: 6\n\
         traffic_class: 171\n\
         flow label: 843504\n\
         payload length: 4660\n\
         next header: 17\n\
         hop limit: 64\n\
         source address: 2001:db8:85a3::8a2e:370:7334\n\
         destination address: fe80::202:b3ff:fe1e:8329\n"
    );
}

#[test]
fn report_has_eight_lines() {
    let report = V6Header::new(&"12".repeat(40)).unwrap().report();
    assert_eq!(report.lines().count(), 8);
    assert!(report.ends_with('\n'));
}

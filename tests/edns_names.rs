use dnsfuzz::edns_names::{edns_option_name, extended_error_code, extended_error_name};

#[test]
fn option_codes_have_stable_names() {
    assert_eq!(edns_option_name(10), "COOKIE");
    assert_eq!(edns_option_name(15), "EXTENDED_ERROR");
    assert_eq!(edns_option_name(26946), "DEVICEID");
    assert_eq!(edns_option_name(4), "Reserved4");
    assert_eq!(edns_option_name(65001), "Reserved65001");
    assert_eq!(edns_option_name(18), "Code18");
}

#[test]
fn extended_errors_are_described() {
    assert_eq!(extended_error_name(0), "Other Error");
    assert_eq!(extended_error_name(27), "Unsupported NSEC3 Iterations Value");
    assert_eq!(extended_error_name(28), "Unassigned(28)");
    assert_eq!(extended_error_name(49152), "Private(49152)");
    assert_eq!(extended_error_code(&vec![0x01, 0x02, 0x41]), 258);
}

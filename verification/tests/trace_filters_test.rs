use adb_pairing_auth::trace::{trace_filters, AdbTrace};

#[test]
fn trace_filters_plain_list() {
    assert_eq!(
        trace_filters("adb,sockets"),
        vec![AdbTrace::Adb, AdbTrace::Sockets]
    );
}

#[test]
fn trace_filters_space_separated_and_unknown() {
    assert_eq!(
        trace_filters("adb bogus mdns"),
        vec![AdbTrace::Adb, AdbTrace::Mdns]
    );
}

#[test]
fn trace_filters_one_enables_all() {
    assert_eq!(trace_filters("1"), AdbTrace::all_tags());
    assert_eq!(trace_filters("foo,all"), AdbTrace::all_tags());
}

#[test]
fn trace_filters_empty_and_doubled_separators() {
    assert_eq!(trace_filters(""), Vec::<AdbTrace>::new());
    assert_eq!(
        trace_filters("adb,,sockets"),
        vec![AdbTrace::Adb, AdbTrace::Sockets]
    );
}

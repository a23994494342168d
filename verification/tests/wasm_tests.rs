use burrower::wasm::{add, version, write_status, writes_output};

#[test]
fn output_writes_report_length_or_error() {
    assert_eq!(write_status(true, 5, 64), -2);
    assert_eq!(write_status(false, 65, 64), -1);
    assert_eq!(write_status(false, 19, 64), 19);
    assert_eq!(write_status(false, 0, 0), 0);
    assert!(writes_output(false, 19, 19));
    assert!(!writes_output(true, 1, 19));
    assert!(!writes_output(false, 20, 19));
}

#[test]
fn version_and_smoke_addition() {
    assert_eq!(version(), "burrower-core 0.0.1");
    assert_eq!(add(2, 3), 5);
    assert_eq!(add(u32::MAX, 2), 1);
}

use argus_manager::types::OperatingMode;

#[test]
fn operating_mode_ordering() {
    assert!(OperatingMode::Normal < OperatingMode::Warning);
    assert!(OperatingMode::Warning < OperatingMode::Critical);
    assert!(OperatingMode::Critical > OperatingMode::Normal);
}

use rsmv::errtext::is_cross_device_error;

#[test]
fn linux_cross_device_wording() {
    assert!(is_cross_device_error("Invalid cross-device link (os error 18)"));
}

#[test]
fn windows_wording() {
    assert!(is_cross_device_error(
        "The system cannot move the file to a different disk drive."
    ) == false);
    assert!(is_cross_device_error("cannot rename: different drive"));
}

#[test]
fn case_is_ignored() {
    assert!(is_cross_device_error("CROSS-DEVICE"));
    assert!(is_cross_device_error("Not Same Device"));
    assert!(is_cross_device_error("DiFfErEnT dRiVe here"));
}

#[test]
fn unrelated_errors_are_final() {
    assert!(!is_cross_device_error("permission denied"));
    assert!(!is_cross_device_error(""));
    assert!(!is_cross_device_error("crossdevice"));
    assert!(!is_cross_device_error("device not same"));
}

use phrustpam::output::{format_line, output_mode, OutputMode};

#[test]
fn both_flags_select_no_mode() {
    assert_eq!(output_mode(true, true), None);
}

#[test]
fn flags_select_one_mode() {
    assert_eq!(output_mode(false, false), Some(OutputMode::HostAndIp));
    assert_eq!(output_mode(true, false), Some(OutputMode::HostsOnly));
    assert_eq!(output_mode(false, true), Some(OutputMode::IpsOnly));
}

#[test]
fn each_mode_formats_its_own_form() {
    assert_eq!(format_line(OutputMode::HostAndIp, "host-a", "10.0.0.5"), "host-a 10.0.0.5");
    assert_eq!(format_line(OutputMode::HostsOnly, "host-a", "10.0.0.5"), "host-a");
    assert_eq!(format_line(OutputMode::IpsOnly, "host-a", "10.0.0.5"), "10.0.0.5");
}

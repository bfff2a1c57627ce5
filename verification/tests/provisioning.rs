//! Tests of the driver-output parser, the companion-name resolution,
//! the port probe, and the provisioning command plan.

use biobridge::port::PortManager;

#[test]
fn real_port_name_is_authoritative() {
    let pm = PortManager::new();
    let out = "CNCB0 PortName=COM#,RealPortName=COM7\n";
    assert_eq!(pm.get_ports(out, "CNCB0"), "COM7");
}

#[test]
fn plain_port_name_is_used_when_no_real_name() {
    let pm = PortManager::new();
    let out = "CNCB0 PortName=COM5\n";
    assert_eq!(pm.get_ports(out, "CNCB0"), "COM5");
}

#[test]
fn line_with_neither_attribute_yields_no_entry() {
    let pm = PortManager::new();
    let out = "CNCB0 FriendlyName=virtual pair\n";
    assert_eq!(pm.get_ports(out, "CNCB0"), "");
}

#[test]
fn missing_slot_resolves_to_empty() {
    let pm = PortManager::new();
    let out = "CNCA0 PortName=COM8\n";
    assert_eq!(pm.get_ports(out, "CNCB0"), "");
}

#[test]
fn empty_output_resolves_to_empty() {
    let pm = PortManager::new();
    assert_eq!(pm.get_ports("", "CNCB0"), "");
}

#[test]
fn both_slots_resolve_independently() {
    let pm = PortManager::new();
    let out = "command output:\nCNCA0 PortName=CNCA0\nCNCB0 PortName=COM#,RealPortName=COM9\n";
    assert_eq!(pm.get_ports(out, "CNCA0"), "CNCA0");
    assert_eq!(pm.get_ports(out, "CNCB0"), "COM9");
}

#[test]
fn later_line_overrides_earlier_line() {
    let pm = PortManager::new();
    let out = "CNCB0 PortName=COM3\nCNCB0 PortName=COM4\n";
    assert_eq!(pm.get_ports(out, "CNCB0"), "COM4");
}

#[test]
fn carriage_returns_are_stripped() {
    let pm = PortManager::new();
    let out = "CNCB0 PortName=COM6\r\nCNCA0 PortName=COM2\r\n";
    assert_eq!(pm.get_ports(out, "CNCB0"), "COM6");
    assert_eq!(pm.get_ports(out, "CNCA0"), "COM2");
}

#[test]
fn token_stops_at_comma_and_space() {
    let pm = PortManager::new();
    let out = "CNCB0 PortName=COM5,EmuOverrun=yes\n";
    assert_eq!(pm.get_ports(out, "CNCB0"), "COM5");
    let out2 = "CNCB0 PortName=COM5 EmuOverrun=yes\n";
    assert_eq!(pm.get_ports(out2, "CNCB0"), "COM5");
}

#[test]
fn slot_without_digit_is_not_a_slot() {
    let pm = PortManager::new();
    let out = "CNCA PortName=COM5\n";
    assert_eq!(pm.get_ports(out, "CNCA"), "");
}

#[test]
fn check_ports_finds_local_port() {
    let pm = PortManager::new();
    let names = vec![
        "/dev/ttyS0".to_string(),
        "CNCA0".to_string(),
        "COM3".to_string(),
    ];
    assert_eq!(pm.check_ports(&names), Some(1));
}

#[test]
fn check_ports_reports_absence() {
    let pm = PortManager::new();
    let names = vec!["COM1".to_string(), "COM2".to_string()];
    assert_eq!(pm.check_ports(&names), None);
}

#[test]
fn install_plan_when_port_absent() {
    let pm = PortManager::new();
    let plan = pm.init_commands(false);
    let expect: Vec<Vec<&str>> = vec![
        vec!["preinstall"],
        vec!["remove", "0"],
        vec!["install", "0", "PortName=CNCA0", "PortName=COM#"],
        vec!["change", "CNCB0", "EmuOverrun=yes"],
        vec!["change", "CNCA0", "EmuBR=yes"],
    ];
    assert_eq!(plan.len(), expect.len());
    for (got, want) in plan.iter().zip(expect.iter()) {
        let got: Vec<&str> = got.iter().map(|s| s.as_str()).collect();
        assert_eq!(&got, want);
    }
}

#[test]
fn no_plan_when_port_present() {
    let pm = PortManager::new();
    assert!(pm.init_commands(true).is_empty());
}

#[test]
fn individual_command_builders() {
    let pm = PortManager::new();
    assert_eq!(pm.preinstall(), vec!["preinstall"]);
    assert_eq!(pm.remove_ports(), vec!["remove", "0"]);
    assert_eq!(
        pm.install_ports(),
        vec!["install", "0", "PortName=CNCA0", "PortName=COM#"]
    );
    let changes = pm.after_install();
    assert_eq!(changes.len(), 2);
    assert_eq!(changes[0], vec!["change", "CNCB0", "EmuOverrun=yes"]);
    assert_eq!(changes[1], vec!["change", "CNCA0", "EmuBR=yes"]);
}

#[test]
fn fixed_port_identifiers() {
    assert_eq!(biobridge::port::local_port_name(), "CNCA0");
    assert_eq!(biobridge::port::companion_slot_name(), "CNCB0");
    assert_eq!(biobridge::port::LOCAL_BAUD_RATE, 115200);
    assert_eq!(biobridge::port::PORT_READ_TIMEOUT_MS, 10);
}

#[test]
fn parse_line_extracts_entry() {
    let entry = biobridge::port::parse_line("CNCB0 PortName=COM#,RealPortName=COM7");
    let (slot, name) = entry.expect("line should yield an entry");
    assert_eq!(slot, "CNCB0");
    assert_eq!(name, "COM7");
    assert!(biobridge::port::parse_line("no slot here PortName=COM5").is_none());
}

use net_monkey::parse::{parse_port_list, parse_u8};
use net_monkey::{AppConfig, ChangeConfig, ForcedIPMode, ModeTab, NetworkAdapter, TaskState};

#[test]
fn default_config() {
    let c = AppConfig::default();
    assert_eq!(c.starting_ip, "192.168.1.1");
    assert_eq!(c.subnet_mask, 24);
    assert_eq!(c.ports, vec![80, 443]);
    assert_eq!(c.forced_ip_mode, ForcedIPMode::Any);
    assert_eq!(c.ports_to_string(), "80, 443");
    assert_eq!(c.subnet_mask_long(), "255.255.255.0");
}

#[test]
fn update_starting_ip() {
    let mut c = AppConfig::default();
    c.update(ChangeConfig::StartingIp(String::from("10.0.0.5")));
    assert_eq!(c.starting_ip, "10.0.0.5");
    assert_eq!(c.subnet_mask, 24);
    assert_eq!(c.ports, vec![80, 443]);
}

#[test]
fn update_subnet_mask() {
    let mut c = AppConfig::default();
    c.update(ChangeConfig::SubnetMask(String::from("16")));
    assert_eq!(c.subnet_mask, 16);
    assert_eq!(c.subnet_mask_long(), "255.255.0.0");
    c.update(ChangeConfig::SubnetMask(String::from("+8")));
    assert_eq!(c.subnet_mask, 8);
    c.update(ChangeConfig::SubnetMask(String::from("abc")));
    assert_eq!(c.subnet_mask, 0);
    c.update(ChangeConfig::SubnetMask(String::from("300")));
    assert_eq!(c.subnet_mask, 0);
    assert_eq!(c.starting_ip, "192.168.1.1");
}

#[test]
fn update_ports_skips_unreadable_pieces() {
    let mut c = AppConfig::default();
    c.update(ChangeConfig::Ports(String::from("22,8080,abc,,70000,65535")));
    assert_eq!(c.ports, vec![22, 8080, 65535]);
    assert_eq!(c.ports_to_string(), "22, 8080, 65535");
    c.update(ChangeConfig::Ports(String::from("80, 443")));
    assert_eq!(c.ports, vec![80]);
    c.update(ChangeConfig::Ports(String::new()));
    assert_eq!(c.ports, Vec::<u16>::new());
    assert_eq!(c.ports_to_string(), "");
    assert_eq!(c.subnet_mask, 24);
}

#[test]
fn update_forced_ip_mode() {
    let mut c = AppConfig::default();
    c.update(ChangeConfig::ForcedIPMode(1));
    assert_eq!(c.forced_ip_mode, ForcedIPMode::V4);
    c.update(ChangeConfig::ForcedIPMode(2));
    assert_eq!(c.forced_ip_mode, ForcedIPMode::V6);
    c.update(ChangeConfig::ForcedIPMode(7));
    assert_eq!(c.forced_ip_mode, ForcedIPMode::Any);
    assert_eq!(ForcedIPMode::from(0usize), ForcedIPMode::Any);
}

#[test]
fn subnet_mask_long_clamps() {
    let mut c = AppConfig::default();
    c.subnet_mask = 0;
    assert_eq!(c.subnet_mask_long(), "128.0.0.0");
    c.subnet_mask = 45;
    assert_eq!(c.subnet_mask_long(), "255.255.255.255");
}

#[test]
fn number_reading() {
    assert_eq!(parse_u8("24"), Some(24));
    assert_eq!(parse_u8("0"), Some(0));
    assert_eq!(parse_u8("255"), Some(255));
    assert_eq!(parse_u8("256"), None);
    assert_eq!(parse_u8("+7"), Some(7));
    assert_eq!(parse_u8("+"), None);
    assert_eq!(parse_u8("-1"), None);
    assert_eq!(parse_u8(""), None);
    assert_eq!(parse_u8(" 1"), None);
    assert_eq!(parse_u8("1 "), None);
    assert_eq!(parse_u8("007"), Some(7));
    assert_eq!(parse_u8("99999999999999999999"), None);
}

#[test]
fn port_list_reading() {
    assert_eq!(parse_port_list("80,443"), vec![80, 443]);
    assert_eq!(parse_port_list("0,65535,65536"), vec![0, 65535]);
    assert_eq!(parse_port_list(",,"), Vec::<u16>::new());
    assert_eq!(parse_port_list("+22,++22,2+2"), vec![22]);
    assert_eq!(parse_port_list("héllo,21"), vec![21]);
}

#[test]
fn tab_labels() {
    assert_eq!(ModeTab::IpScan.label(), "IP Scan");
    assert_eq!(ModeTab::TCPclient.label(), "TCP Client");
    assert_eq!(ModeTab::TCPserver.label(), "TCP Server");
    assert_eq!(ModeTab::UDPclient.label(), "UDP Client");
    assert_eq!(ModeTab::UDPserver.label(), "UDP Server");
    assert_eq!(ModeTab::Settings.label(), "Settings");
}

#[test]
fn adapter_label() {
    let a = NetworkAdapter {
        name: String::from("eth0"),
        ip_address: String::from("192.168.1.20"),
        mac_address: String::from("aa:bb:cc:dd:ee:ff"),
    };
    assert_eq!(a.label(), "[192.168.1.20] eth0");
    assert_eq!(NetworkAdapter::default().label(), "[] ");
}

#[test]
fn task_state_default_is_idle() {
    assert_eq!(TaskState::default(), TaskState::Idle);
}

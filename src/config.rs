//! The settings a scan is started from, and the edits made to them.
use vstd::prelude::*;

use crate::parse::{parse_port_list, parse_u8, parsed_unsigned, port_list};
use crate::range::{mask_text, subnet_mask_dotted};
use crate::text::{join_ports, joined_ports};

verus! {

/// Which IP family a scan is restricted to.
#[derive(Debug, Clone, Copy, PartialEq, Eq, Structural)]
pub enum ForcedIPMode {
    Any,
    V4,
    V6,
}

/// The mode picked by a selector position: 1 is IPv4, 2 is IPv6, any
/// other position lets both through.
pub open spec fn mode_of_index(mode: usize) -> ForcedIPMode {
    if mode == 1 {
        ForcedIPMode::V4
    } else if mode == 2 {
        ForcedIPMode::V6
    } else {
        ForcedIPMode::Any
    }
}

impl From<usize> for ForcedIPMode {
    fn from(mode: usize) -> (r: ForcedIPMode) {
        if mode == 1 {
            ForcedIPMode::V4
        } else if mode == 2 {
            ForcedIPMode::V6
        } else {
            ForcedIPMode::Any
        }
    }
}

impl vstd::std_specs::convert::FromSpecImpl<usize> for ForcedIPMode {
    open spec fn obeys_from_spec() -> bool {
        true
    }

    open spec fn from_spec(mode: usize) -> ForcedIPMode {
        mode_of_index(mode)
    }
}

/// The views of the application.
#[derive(Debug, Clone, Copy, PartialEq, Eq, Structural)]
pub enum ModeTab {
    IpScan,
    TCPclient,
    TCPserver,
    UDPclient,
    UDPserver,
    Settings,
}

pub open spec fn tab_label(tab: ModeTab) -> Seq<char> {
    match tab {
        ModeTab::IpScan => "IP Scan"@,
        ModeTab::TCPclient => "TCP Client"@,
        ModeTab::TCPserver => "TCP Server"@,
        ModeTab::UDPclient => "UDP Client"@,
        ModeTab::UDPserver => "UDP Server"@,
        ModeTab::Settings => "Settings"@,
    }
}

impl ModeTab {
    /// The title shown for the view.
    pub fn label(&self) -> (r: String)
        ensures
            r@ == tab_label(*self),
    {
        match self {
            ModeTab::IpScan => String::from_str("IP Scan"),
            ModeTab::TCPclient => String::from_str("TCP Client"),
            ModeTab::TCPserver => String::from_str("TCP Server"),
            ModeTab::UDPclient => String::from_str("UDP Client"),
            ModeTab::UDPserver => String::from_str("UDP Server"),
            ModeTab::Settings => String::from_str("Settings"),
        }
    }
}

/// An edit of the settings, as the settings form produces it.
#[derive(Debug, Clone)]
pub enum ChangeConfig {
    StartingIp(String),
    /// The prefix length as typed.
    SubnetMask(String),
    /// The port list as typed, comma-separated.
    Ports(String),
    /// Position picked in the IP-family selector.
    ForcedIPMode(usize),
}

/// The settings a scan starts from.
#[derive(Debug, Clone)]
pub struct AppConfig {
    /// Base address of the scan, as typed.
    pub starting_ip: String,
    /// Prefix length of the subnet to scan.
    pub subnet_mask: u8,
    /// Ports tried on each live host.
    pub ports: Vec<u16>,
    pub forced_ip_mode: ForcedIPMode,
}

impl Default for AppConfig {
    /// `192.168.1.1/24`, ports 80 and 443, either IP family.
    fn default() -> (r: AppConfig)
        ensures
            r.starting_ip@ == "192.168.1.1"@,
            r.subnet_mask == 24,
            r.ports@ == seq![80u16, 443u16],
            r.forced_ip_mode == ForcedIPMode::Any,
    {
        let mut ports: Vec<u16> = Vec::new();
        ports.push(80);
        ports.push(443);
        AppConfig {
            starting_ip: String::from_str("192.168.1.1"),
            subnet_mask: 24,
            ports,
            forced_ip_mode: ForcedIPMode::Any,
        }
    }
}

/// The prefix length that typed text gives: the number it spells when
/// that fits a `u8`, else zero.
pub open spec fn typed_mask(s: Seq<char>) -> u8 {
    match parsed_unsigned(s, 0xff) {
        Some(v) => v as u8,
        None => 0,
    }
}

impl AppConfig {
    /// The configured ports, comma-separated.
    pub fn ports_to_string(&self) -> (r: String)
        ensures
            r@ == joined_ports(self.ports@),
    {
        join_ports(&self.ports)
    }

    /// The subnet mask in dotted-decimal form; a prefix length outside
    /// `[1, 32]` is taken as the nearest bound.
    pub fn subnet_mask_long(&self) -> (r: String)
        ensures
            r@ == mask_text(self.subnet_mask),
    {
        subnet_mask_dotted(self.subnet_mask)
    }

    /// Applies one edit; the other settings stay as they were.
    pub fn update(&mut self, change: ChangeConfig)
        ensures
            match change {
                ChangeConfig::StartingIp(ip) => final(self).starting_ip@ == ip@,
                ChangeConfig::SubnetMask(mask) => final(self).subnet_mask == typed_mask(mask@),
                ChangeConfig::Ports(ports) => final(self).ports@ == port_list(ports@),
                ChangeConfig::ForcedIPMode(mode) => final(self).forced_ip_mode == mode_of_index(mode),
            },
            !(change is StartingIp) ==> final(self).starting_ip@ == old(self).starting_ip@,
            !(change is SubnetMask) ==> final(self).subnet_mask == old(self).subnet_mask,
            !(change is Ports) ==> final(self).ports@ == old(self).ports@,
            !(change is ForcedIPMode) ==> final(self).forced_ip_mode == old(self).forced_ip_mode,
    {
        match change {
            ChangeConfig::StartingIp(ip) => self.starting_ip = ip,
            ChangeConfig::SubnetMask(mask) => {
                self.subnet_mask = match parse_u8(mask.as_str()) {
                    Some(v) => v,
                    None => 0,
                };
            },
            ChangeConfig::Ports(ports) => self.ports = parse_port_list(ports.as_str()),
            ChangeConfig::ForcedIPMode(mode) => self.forced_ip_mode = ForcedIPMode::from(mode),
        }
    }
}

} // verus!

//! Network host discovery: the addresses of a subnet, the outcome of
//! probing each, and the scan session that decides what to launch and
//! orders what is delivered. Also the settings a scan starts from.
pub mod adaptor;
pub mod config;
pub mod parse;
pub mod range;
pub mod scanner;
pub mod session;
pub mod tasks;
pub mod text;

pub use adaptor::NetworkAdapter;
pub use config::{AppConfig, ChangeConfig, ForcedIPMode, ModeTab};
pub use range::{address_to_string, compute_range, ipv4, octets, subnet_mask_dotted};
pub use scanner::{probe_outcome, ScanMessage, ScannedIp};
pub use session::{ProbeRequest, ScanSession};
pub use tasks::{TaskMessage, TaskState};

//! A network interface of this host, as offered for the starting address.
use vstd::prelude::*;

verus! {

/// A network interface: its name, one of its addresses, and its hardware
/// address.
#[derive(Debug, Clone, Default)]
pub struct NetworkAdapter {
    pub name: String,
    pub ip_address: String,
    pub mac_address: String,
}

/// `[address] name`.
pub open spec fn adapter_label(ip_address: Seq<char>, name: Seq<char>) -> Seq<char> {
    seq!['['] + ip_address + seq![']', ' '] + name
}

impl NetworkAdapter {
    /// The text that lists the adapter: its address in brackets, then its
    /// name.
    pub fn label(&self) -> (r: String)
        ensures
            r@ == adapter_label(self.ip_address@, self.name@),
    {
        proof {
            reveal_strlit("[");
            reveal_strlit("] ");
        }
        let mut out = String::from_str("[");
        out.append(self.ip_address.as_str());
        out.append("] ");
        out.append(self.name.as_str());
        out
    }
}

} // verus!

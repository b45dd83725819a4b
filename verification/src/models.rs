//! The panels of the monitor and the plain data that they show.
use vstd::prelude::*;
use vstd::string::*;

use crate::config::Config;
use crate::text::{append_char, push_str};

verus! {

/// The panel that has the keyboard focus.
#[derive(Debug, Clone, Copy, PartialEq, Eq, Structural)]
pub enum DeviceSelector {
    NoDevice,
    System,
    Processor,
    Graphics,
    Disk,
    Processes,
    Memory,
    Network,
}

impl Default for DeviceSelector {
    fn default() -> (r: Self)
        ensures
            r == DeviceSelector::NoDevice,
    {
        DeviceSelector::NoDevice
    }
}

/// The name under which a panel is shown as the current selection.
pub open spec fn device_name(device: DeviceSelector) -> Seq<char> {
    match device {
        DeviceSelector::NoDevice => "No device selected"@,
        DeviceSelector::System => "System"@,
        DeviceSelector::Processor => "Processors"@,
        DeviceSelector::Graphics => "Graphics Cards"@,
        DeviceSelector::Disk => "Disks"@,
        DeviceSelector::Processes => "Processes"@,
        DeviceSelector::Memory => "Memory"@,
        DeviceSelector::Network => "Networks"@,
    }
}

/// The keys that a panel answers to, as the help line shows them.
pub open spec fn device_keybind_text(device: DeviceSelector, config: Config) -> Seq<char> {
    let k = config.keybinds;
    match device {
        DeviceSelector::NoDevice => "Quit ("@ + seq![k.quit] + ") | System ("@ + seq![k.system]
            + ") | CPU ("@ + seq![k.processor] + ") | GPU ("@ + seq![k.graphics] + ") | Disk ("@
            + seq![k.disk] + ") | Processes ("@ + seq![k.processes] + ") | Memory ("@ + seq![k.memory]
            + ") | Network ("@ + seq![k.network] + ") | Config ("@ + seq![k.config] + ")"@,
        DeviceSelector::System => "Quit ("@ + seq![k.quit] + ") | Back (Esc / "@ + seq![k.system]
            + ")"@,
        DeviceSelector::Processor => "Quit ("@ + seq![k.quit] + ") | Back (Esc / "@ + seq![
            k.processor,
        ] + ") | Previous/Next Core Group (Left/Right)"@,
        DeviceSelector::Graphics => "Quit ("@ + seq![k.quit] + ") | Back (Esc / "@ + seq![k.graphics]
            + ") | Previous/Next GPU (Left/Right)"@,
        DeviceSelector::Disk => "Quit ("@ + seq![k.quit] + ") | Back (Esc / "@ + seq![k.disk]
            + ") | Previous/Next Disk (Left/Right)"@,
        DeviceSelector::Processes => "Quit ("@ + seq![k.quit] + ") | Back (Esc / "@ + seq![
            k.processes,
        ] + ") | Navigate (Up/Down) | Inspect (Enter) | Previous/Next (Left/Right)"@,
        DeviceSelector::Memory => "Quit ("@ + seq![k.quit] + ") | Back (Esc / "@ + seq![k.memory]
            + ") | Precision (+/-)"@,
        DeviceSelector::Network => "Quit ("@ + seq![k.quit] + ") | Back (Esc / "@ + seq![k.network]
            + ") | Previous/Next Network (Left/Right)"@,
    }
}

impl DeviceSelector {
    /// The name under which this panel is shown as the current selection.
    pub fn name(&self) -> (r: &'static str)
        ensures
            r@ == device_name(*self),
    {
        match self {
            DeviceSelector::NoDevice => "No device selected",
            DeviceSelector::System => "System",
            DeviceSelector::Processor => "Processors",
            DeviceSelector::Graphics => "Graphics Cards",
            DeviceSelector::Disk => "Disks",
            DeviceSelector::Processes => "Processes",
            DeviceSelector::Memory => "Memory",
            DeviceSelector::Network => "Networks",
        }
    }

    /// The help line for this panel, naming the configured keys.
    pub fn keybind_description(&self, config: &Config) -> (r: String)
        ensures
            r@ == device_keybind_text(*self, *config),
    {
        let k = &config.keybinds;
        let mut s = String::from_str("Quit (");
        append_char(&mut s, k.quit);
        match self {
            DeviceSelector::NoDevice => {
                push_str(&mut s, ") | System (");
                append_char(&mut s, k.system);
                push_str(&mut s, ") | CPU (");
                append_char(&mut s, k.processor);
                push_str(&mut s, ") | GPU (");
                append_char(&mut s, k.graphics);
                push_str(&mut s, ") | Disk (");
                append_char(&mut s, k.disk);
                push_str(&mut s, ") | Processes (");
                append_char(&mut s, k.processes);
                push_str(&mut s, ") | Memory (");
                append_char(&mut s, k.memory);
                push_str(&mut s, ") | Network (");
                append_char(&mut s, k.network);
                push_str(&mut s, ") | Config (");
                append_char(&mut s, k.config);
                push_str(&mut s, ")");
            },
            DeviceSelector::System => {
                push_str(&mut s, ") | Back (Esc / ");
                append_char(&mut s, k.system);
                push_str(&mut s, ")");
            },
            DeviceSelector::Processor => {
                push_str(&mut s, ") | Back (Esc / ");
                append_char(&mut s, k.processor);
                push_str(&mut s, ") | Previous/Next Core Group (Left/Right)");
            },
            DeviceSelector::Graphics => {
                push_str(&mut s, ") | Back (Esc / ");
                append_char(&mut s, k.graphics);
                push_str(&mut s, ") | Previous/Next GPU (Left/Right)");
            },
            DeviceSelector::Disk => {
                push_str(&mut s, ") | Back (Esc / ");
                append_char(&mut s, k.disk);
                push_str(&mut s, ") | Previous/Next Disk (Left/Right)");
            },
            DeviceSelector::Processes => {
                push_str(&mut s, ") | Back (Esc / ");
                append_char(&mut s, k.processes);
                push_str(
                    &mut s,
                    ") | Navigate (Up/Down) | Inspect (Enter) | Previous/Next (Left/Right)",
                );
            },
            DeviceSelector::Memory => {
                push_str(&mut s, ") | Back (Esc / ");
                append_char(&mut s, k.memory);
                push_str(&mut s, ") | Precision (+/-)");
            },
            DeviceSelector::Network => {
                push_str(&mut s, ") | Back (Esc / ");
                append_char(&mut s, k.network);
                push_str(&mut s, ") | Previous/Next Network (Left/Right)");
            },
        }
        s
    }
}

/// What the operating system says about itself.
#[derive(Debug)]
pub struct Machine {
    pub os: Option<String>,
    pub version: Option<String>,
    pub kernel: Option<String>,
    pub name: Option<String>,
    pub uptime: u64,
    pub boot: u64,
}

/// The processor model and its counts of cores and threads.
#[derive(Debug)]
pub struct CpuInfo {
    pub brand: String,
    pub model: String,
    pub core_count: usize,
    pub thread_count: usize,
    pub arch: String,
}

/// Memory in bytes, with the number of decimals the memory panel shows.
#[derive(Debug, Clone, Copy)]
pub struct Memory {
    pub capacity: u64,
    pub free: u64,
    pub used: u64,
    pub swap: Swap,
    pub prec_count: usize,
}

/// Swap space in bytes.
#[derive(Debug, Clone, Copy)]
pub struct Swap {
    pub capacity: u64,
    pub free: u64,
    pub used: u64,
}

/// One network interface and its traffic counters.
#[derive(Debug)]
pub struct NetworkInterface {
    pub name: String,
    pub state: String,
    pub mac_address: String,
    pub ip_addresses: String,
    pub received_bytes: u64,
    pub total_received_bytes: u64,
    pub transmitted_bytes: u64,
    pub total_transmitted_bytes: u64,
    pub received_packets: u64,
    pub transmitted_packets: u64,
}

impl Default for Machine {
    fn default() -> (r: Self)
        ensures
            r.os is None && r.version is None && r.kernel is None && r.name is None,
            r.uptime == 0 && r.boot == 0,
    {
        Machine { os: None, version: None, kernel: None, name: None, uptime: 0, boot: 0 }
    }
}

impl Default for CpuInfo {
    fn default() -> (r: Self)
        ensures
            r.brand@.len() == 0 && r.model@.len() == 0 && r.arch@.len() == 0,
            r.core_count == 0 && r.thread_count == 0,
    {
        CpuInfo {
            brand: String::new(),
            model: String::new(),
            core_count: 0,
            thread_count: 0,
            arch: String::new(),
        }
    }
}

impl Default for Swap {
    fn default() -> (r: Self)
        ensures
            r.capacity == 0 && r.free == 0 && r.used == 0,
    {
        Swap { capacity: 0, free: 0, used: 0 }
    }
}

impl Default for Memory {
    fn default() -> (r: Self)
        ensures
            r.capacity == 0 && r.free == 0 && r.used == 0 && r.prec_count == 0,
            r.swap.capacity == 0 && r.swap.free == 0 && r.swap.used == 0,
    {
        Memory { capacity: 0, free: 0, used: 0, swap: Swap::default(), prec_count: 0 }
    }
}

impl Default for NetworkInterface {
    fn default() -> (r: Self)
        ensures
            r.name@.len() == 0 && r.state@.len() == 0 && r.mac_address@.len() == 0
                && r.ip_addresses@.len() == 0,
            r.received_bytes == 0 && r.total_received_bytes == 0 && r.transmitted_bytes == 0
                && r.total_transmitted_bytes == 0 && r.received_packets == 0
                && r.transmitted_packets == 0,
    {
        NetworkInterface {
            name: String::new(),
            state: String::new(),
            mac_address: String::new(),
            ip_addresses: String::new(),
            received_bytes: 0,
            total_received_bytes: 0,
            transmitted_bytes: 0,
            total_transmitted_bytes: 0,
            received_packets: 0,
            transmitted_packets: 0,
        }
    }
}

} // verus!

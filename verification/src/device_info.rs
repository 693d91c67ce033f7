//! Description of this device.

use vstd::prelude::*;

verus! {

#[derive(Clone)]
pub struct Channel {
    pub factory_name: String,
    pub friendly_name: String,
}

#[derive(Clone)]
pub struct DeviceInfo {
    pub ip_address: [u8; 4],
    pub board_name: String,
    pub manufacturer: String,
    pub model_name: String,
    /// such as _000000000000000b
    pub model_number: String,
    pub factory_device_id: [u8; 8],
    pub process_id: u16,
    pub vendor_string: String,
    pub friendly_hostname: String,
    pub factory_hostname: String,
    pub rx_channels: Vec<Channel>,
    pub tx_channels: Vec<Channel>,
    pub bits_per_sample: u8,
    /// usually 0xe, in older devices 4
    pub pcm_type: u8,
    pub latency_ns: usize,
    pub sample_rate: u32,
    pub arc_port: u16,
    pub cmc_port: u16,
    pub flows_control_port: u16,
    pub info_request_port: u16,
}

impl DeviceInfo {
    /// The latency in samples.
    pub fn latency_samples(&self) -> (samples: usize)
        requires
            self.latency_ns * self.sample_rate <= usize::MAX,
        ensures
            samples == self.latency_ns * self.sample_rate / 1_000_000_000,
    {
        self.latency_ns * (self.sample_rate as usize) / 1_000_000_000
    }

    /// Whether `latency_samples` may be called.
    pub fn is_latency_computable(&self) -> (computable: bool)
        ensures
            computable == (self.latency_ns * self.sample_rate <= usize::MAX),
    {
        match self.latency_ns.checked_mul(self.sample_rate as usize) {
            Some(_) => true,
            None => false,
        }
    }
}

} // verus!

//! The measurement records the library produces.

use vstd::prelude::*;
use crate::ip::IpAddress;

verus! {

/// Latency measurement of one address.
#[derive(Debug)]
pub struct PingData {
    /// The address probed.
    pub ip: IpAddress,
    /// Probes sent.
    pub sent: usize,
    /// Probes answered.
    pub received: usize,
    /// Average round-trip delay of the answered probes, in nanoseconds.
    pub delay_ns: u128,
    /// Location code of the answering node; empty when unknown.
    pub colo: String,
}

impl Clone for PingData {
    fn clone(&self) -> (r: Self)
        ensures
            r == *self,
    {
        PingData {
            ip: self.ip,
            sent: self.sent,
            received: self.received,
            delay_ns: self.delay_ns,
            colo: self.colo.clone(),
        }
    }
}

/// Latency and download measurement of one address.
#[derive(Debug)]
pub struct CloudflareIpData {
    /// The latency measurement.
    pub ping_data: PingData,
    /// Download speed in bytes per second, as the bit pattern of an IEEE-754 double;
    /// speeds are never negative, so the patterns order as the speeds do.
    pub download_speed: u64,
}

impl Clone for CloudflareIpData {
    fn clone(&self) -> (r: Self)
        ensures
            r == *self,
    {
        CloudflareIpData { ping_data: self.ping_data.clone(), download_speed: self.download_speed }
    }
}

impl CloudflareIpData {
    /// A record for `ping_data` whose download speed is still zero.
    pub fn new(ping_data: PingData) -> (d: Self)
        ensures
            d.ping_data == ping_data,
            d.download_speed == 0,
    {
        Self { ping_data, download_speed: 0 }
    }
}

} // verus!

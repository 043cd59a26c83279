//! Client enrichment: geolocation facts and the user agent's device class.
use vstd::prelude::*;

verus! {

/// What a geolocation lookup found about a client address.
#[derive(Debug, Clone, Default)]
pub struct GeoInfo {
    /// e.g., US, GB.
    pub country_code: Option<String>,
    /// Location region.
    pub region: Option<String>,
    /// Autonomous System Number.
    pub asn: Option<u32>,
    /// Autonomous System Organization.
    pub aso: Option<String>,
    /// e.g., wifi, mobile.
    pub connection_type: Option<String>,
}

impl GeoInfo {
    /// Whether the lookup found anything at all.
    pub fn has_some_info(&self) -> (b: bool)
        ensures
            b == (self.country_code is Some || self.region is Some || self.asn is Some
                || self.aso is Some || self.connection_type is Some),
    {
        self.country_code.is_some() || self.region.is_some() || self.asn.is_some()
            || self.aso.is_some() || self.connection_type.is_some()
    }
}

/// The class of device a user agent runs on.
#[derive(Debug, Clone, Copy, PartialEq, Eq, Structural)]
pub enum DeviceType {
    Desktop,
    Mobile,
    Tablet,
    Bot,
    Unknown,
}

pub open spec fn device_type_name(d: DeviceType) -> Seq<char> {
    match d {
        DeviceType::Desktop => "desktop"@,
        DeviceType::Mobile => "mobile"@,
        DeviceType::Tablet => "tablet"@,
        DeviceType::Bot => "bot"@,
        DeviceType::Unknown => "unknown"@,
    }
}

impl DeviceType {
    pub fn as_str(&self) -> (s: &'static str)
        ensures
            s@ == device_type_name(*self),
    {
        match self {
            DeviceType::Desktop => "desktop",
            DeviceType::Mobile => "mobile",
            DeviceType::Tablet => "tablet",
            DeviceType::Bot => "bot",
            DeviceType::Unknown => "unknown",
        }
    }
}

/// What a user agent string says about the client.
#[derive(Debug, Clone, Copy)]
pub struct UserAgentInfo {
    pub device_type: DeviceType,
    pub is_bot: bool,
}

} // verus!

//! The settings of the configuration file.
use vstd::prelude::*;

verus! {

/// The whole configuration file.
#[derive(Debug, Clone, PartialEq, Eq)]
pub struct Config {
    pub device: Option<DeviceConfig>,
    pub profile: Option<ProfileConfig>,
    pub ui: Option<UiConfig>,
    pub log: Option<LogConfig>,
}

/// Default device selection.
#[derive(Debug, Clone, PartialEq, Eq)]
pub struct DeviceConfig {
    pub default_vendor_id: Option<String>,
    pub default_product_id: Option<String>,
    pub default_interface: Option<String>,
    pub default_bulk_in: Option<String>,
    pub default_bulk_out: Option<String>,
}

/// Carrier profiles.
#[derive(Debug, Clone, PartialEq, Eq)]
pub struct ProfileConfig {
    pub soracom: Option<SoracomProfileConfig>,
}

/// The SORACOM data profile.
#[derive(Debug, Clone, PartialEq, Eq)]
pub struct SoracomProfileConfig {
    pub apn: Option<String>,
    pub pdp_type: Option<String>,
    pub context_id: Option<u8>,
}

/// Display settings.
#[derive(Debug, Clone, PartialEq, Eq)]
pub struct UiConfig {
    pub mask_sensitive_values: Option<bool>,
    pub show_vendor_commands: Option<bool>,
}

/// Logging settings.
#[derive(Debug, Clone, PartialEq, Eq)]
pub struct LogConfig {
    pub enabled: Option<bool>,
    pub raw_log_enabled: Option<bool>,
    pub log_dir: Option<String>,
}

} // verus!

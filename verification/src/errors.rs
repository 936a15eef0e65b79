//! The error taxonomy of the synchronization engine.  Configuration errors
//! (a missing required key) and source errors (an empty lease set) abort a
//! run; reload failures are reported by the caller per zone and are not part
//! of this type.

use vstd::prelude::*;

verus! {

/// A required configuration key.
#[derive(PartialEq, Eq, Structural, Clone, Copy, Debug)]
pub enum ConfigKey {
    ApiUrl,
    ApiUser,
    ApiPass,
    ZoneName,
    MainConf,
    HostFile,
    SubnetPrefix,
    PtrFile,
}

/// A fatal error of the synchronization engine.
#[derive(PartialEq, Eq, Structural, Clone, Copy, Debug)]
pub enum SyncError {
    /// A required configuration key is absent.
    MissingKey(ConfigKey),
    /// The lease source returned no records; treated as "no data received",
    /// never as "zero hosts", so that a transient source glitch cannot wipe
    /// the zone files.
    EmptyLeaseSet,
}

impl ConfigKey {
    /// The configuration key's name, as it stands in a configuration file.
    pub fn name(&self) -> (r: &'static str)
        ensures
            self is ApiUrl ==> r@ == "API_URL"@,
            self is ApiUser ==> r@ == "API_USER"@,
            self is ApiPass ==> r@ == "API_PASS"@,
            self is ZoneName ==> r@ == "ZONE_NAME"@,
            self is MainConf ==> r@ == "MAIN_CONF"@,
            self is HostFile ==> r@ == "HOST_FILE"@,
            self is SubnetPrefix ==> r@ == "SUBNET_PREFIX"@,
            self is PtrFile ==> r@ == "PTR_FILE"@,
    {
        match self {
            ConfigKey::ApiUrl => "API_URL",
            ConfigKey::ApiUser => "API_USER",
            ConfigKey::ApiPass => "API_PASS",
            ConfigKey::ZoneName => "ZONE_NAME",
            ConfigKey::MainConf => "MAIN_CONF",
            ConfigKey::HostFile => "HOST_FILE",
            ConfigKey::SubnetPrefix => "SUBNET_PREFIX",
            ConfigKey::PtrFile => "PTR_FILE",
        }
    }
}

} // verus!

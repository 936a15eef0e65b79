//! Zone-file synchronization engine for a DHCP-lease-driven DNS setup.
//!
//! The library turns a list of `(hostname, address)` lease records into the
//! bodies of a forward (A-record) and a reverse (PTR-record) host-records
//! file, rewrites the date-based serial number of a zone configuration file,
//! parses and validates the run's configuration, and fixes the order of the
//! publish steps.  All of that logic is verified; the surrounding process
//! (configuration discovery, the HTTP fetch of the leases, file reads and
//! writes, running the reload command) stays outside and hands the library
//! plain values.

pub mod config;
pub mod errors;
pub mod publish;
pub mod records;
pub mod serial;
pub mod text;

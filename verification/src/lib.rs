//! A host agent library that bridges the Linux kernel device database to a
//! container orchestrator's device-plugin contract.
//!
//! Operators declare *device types* (filters over kernel devices, enriched
//! with labels and an access policy) and *device classes* (handlers that
//! expose groups of device types under an advertised resource name).  The
//! library holds the verified core: the selector language and matcher, the
//! configuration document model with parsing and serialization, the device,
//! device-type and device-class registries, the first-match distributor,
//! the per-class snapshot maintenance, and the reconciliation state machine.
//! Kernel enumeration, file and socket I/O and the gRPC transport stay
//! outside and hand the library plain values.

pub mod access;
pub mod args;
pub mod attrs;
pub mod config;
pub mod config_doc;
pub mod device;
pub mod device_class;
pub mod device_registry;
pub mod device_type;
pub mod doc;
pub mod engine;
pub mod intern;
pub mod labels;
pub mod parse;
pub mod plugin_api;
pub mod selector;
pub mod signals;
pub mod sockets;
pub mod strutil;
pub mod transport;
pub mod utils;

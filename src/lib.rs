//! Bootstrap logic for a multi-node consensus test cluster on Kubernetes:
//! node naming, peer-list arguments, deployment descriptors, namespace
//! provisioning decisions and seed-node address discovery.

mod text;
pub mod deployment;
pub mod discovery;
pub mod error;
pub mod namespace;
pub mod naming;
pub mod peer_args;
pub mod seed_map;

//! Disk provisioning core: block-device modelling, transactional partition
//! planning, allocation strategies, filesystem superblock detection, and a
//! strategy-document driven provisioner.

pub mod commands;
pub mod device;
pub mod disk;
pub mod document;
pub mod encoding;
pub mod errors;
pub mod fat;
pub mod laws;
pub mod loopback;
pub mod mock;
pub mod parser;
pub mod partition;
pub mod planner;
pub mod provisioner;
pub mod strategy;
pub mod superblock;
pub mod types;

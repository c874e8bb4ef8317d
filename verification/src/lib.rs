//! Decoder for Linux kernel uevent notifications.
//!
//! A uevent describes a device lifecycle change (a kobject was added,
//! removed, bound to a driver, and so on).  The kernel announces one either
//! as a netlink datagram of NUL-separated `KEY=VALUE` segments, or as a
//! static sysfs snapshot (a `uevent` file plus a `subsystem` symbolic link).
//! This crate turns either raw form into one validated [`UEvent`] record or
//! a specific [`Error`].

pub mod action;
pub mod env;
pub mod error;
pub mod event;
pub mod laws;
pub mod path;
pub mod record;
pub mod text;

pub use action::ActionType;
pub use env::EnvMap;
pub use error::Error;
pub use error::ErrorView;
pub use event::EventView;
pub use event::UEvent;
pub use laws::lemma_action_vocabulary;
pub use laws::lemma_netlink_env_roundtrip;
pub use laws::lemma_netlink_fields;
pub use laws::lemma_netlink_required;
pub use laws::lemma_sysfs_synthesized;

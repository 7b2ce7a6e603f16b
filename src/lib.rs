pub mod bytes;
pub mod ieee80211;
pub mod monitor;
pub mod netlink;
pub mod radiotap;

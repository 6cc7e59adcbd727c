//! USB boot protocol for Amlogic SoCs: the requests a host sends to a SoC
//! in USB boot mode, and how the host reads what the SoC answers.
pub mod amlogic;
pub mod boot;

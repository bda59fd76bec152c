//! Verified logic of the DMX interface firmware and its UF2 build helper.

pub mod diag;
pub mod elf_image;
pub mod event_router;
pub mod ftdi;
pub mod netstats;
pub mod numfmt;
pub mod panel_probe;
pub mod panel_test;
pub mod spi_plan;
pub mod uf2;
pub mod usb_device;
pub mod w6300;
pub mod widget_session;
pub mod xtask_args;

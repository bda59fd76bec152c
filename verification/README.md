# DMX interface firmware logic, verified

The decisions and data transformations of an RP2350 DMX/Art-Net interface
board and of its UF2 build helper, written in Verus and proved against their
contracts.

- `src/diag.rs`: the boot's diagnostic flags and the `diag=` report.
- `src/netstats.rs`: ingest counters.
- `src/w6300.rs`: the W6300 SPI clock probe (a state machine the caller
  drives through the reset pulse and with the version bytes it reads), the
  bring-up record, and the link and address watcher.
- `src/spi_plan.rs`: which SPI operations are gathered into one burst, which
  spin and which go by DMA, and the runner that carries a plan out with chip
  select released on every way out.
- `src/event_router.rs`: render at most once per tick, the latest event only.
- `src/usb_device.rs`, `src/ftdi.rs`: USB identity and reboot decisions, CDC
  packet sizes, FT232R control requests and IN packet framing.
- `src/widget_session.rs`: the Enttec widget's session with the host over
  either transport: mode changes, idle-tick forwarding or heartbeat, and
  dropping the host on an endpoint error.
- `src/panel_test.rs`, `src/panel_probe.rs`: the ST7789 test sequence and the
  probe's colour cycle.
- `src/elf_image.rs`, `src/uf2.rs`, `src/xtask_args.rs`: ELF to flash image,
  flash image to UF2 (`build_uf2` chains both with the IMAGE_DEF check), and
  the `cargo uf2` options.
- `app/main.rs`: the `cargo uf2` program: runs cargo, reads and writes files.

# r1_panel

Status panel for the 376×960 portrait touch screen of the HS-NAS-R1: CPU,
memory, network, disk health, services, containers and virtual machines on
four swipeable pages, with a confirmed reboot/shutdown dialog. It drives
DRM/KMS and evdev directly and renders in software.

The library in `src/` is verified with Verus:

- `input` — evdev records, the touch gesture recogniser (scroll, page swipe,
  tap) and the device capability queries.
- `view` — pages, dialog, layout heights, scroll limits, touch targets,
  badges and the choice of network interface.
- `interaction` — scrolling, tap outcomes, swipe pages and the repaint
  schedule of the event loop.
- `canvas` — the framebuffer: pixel writes, alpha blending, clipped fills,
  RGBA images, the 5×7 bitmap font and BMP encoding.
- `display` — DRM node, connector and CRTC choice, ioctl request numbers,
  page-flip chain and events, DSI link refresh schedule.
- `metrics`, `storage` — parsers for `/proc`, `/sys`, `lsblk`, `findmnt`,
  `smartctl`, `docker`, `virsh`, `systemctl` and `ip` output, and the
  mountpoints of each disk.
- `text`, `arith` — character-level string operations and integer helpers
  the parsers and the gesture arithmetic are specified with.

`app/` is the program around it: device I/O, threads, fontdue text,
anti-aliased shapes and everything computed in floating point.

Screenshot mode writes a BMP without opening any device:

```bash
R1_PANEL_PAGE=services R1_PANEL_SCROLL=900 r1-panel --screenshot services.bmp
R1_PANEL_MODAL=reboot r1-panel --screenshot reboot.bmp
```

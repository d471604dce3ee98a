# vkpace

A Vulkan layer that reduces input latency by offering `VK_AMD_anti_lag` or
`VK_NV_low_latency2` on top of any driver, with its decisions verified in
Verus.

- `src/` is the library: configuration, frame pacing, timestamp pools, marker
  history, telemetry, extension and feature negotiation, and the statistics of
  the live display. Every public function states its contract, and the
  functions named `law_*` state what holds of several of them together.
- `app/` holds what talks to the loader, the driver, the display and the
  operating system: entry points, threads, sockets, the window, and the
  floating-point arithmetic.
- `tests/` runs the library on concrete values.

# mouse_poll_rate_tester

A mouse polling-rate meter for Windows. The library in `src/` is verified
with Verus; `app/` is the Windows program around it.

- `src/stats.rs`: the sliding one-second window of input timestamps and the
  statistics measured over it (current, highest and lowest rate, event count).
- `src/rate.rs`: rates held exactly as intervals over microseconds, with their
  order and frequency thresholds.
- `src/layout.rs`: dpi scaling of the drawing, the bar's filled width and colour.
- `src/messages.rs`: what the window does with each message.
- `src/wide.rs`: NUL-terminated UTF-16 text for the wide-character calls.
- `app/main.rs`: window creation, message loop, performance-counter clock,
  raw input registration, GDI drawing, and the floating-point read-outs
  (rates in Hz and the smoothed average).

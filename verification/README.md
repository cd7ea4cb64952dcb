# voxalic

The core of VoxAlic, a Warframe companion: world-state parsing (void
fissures, open-world cycles), subscription alerts, the mission-timer state
machine, the Warframe.Market catalogue, orders and account handling, the
decisions of the market's status channel, and the small image routines behind
the timer capture and the tray icon.

- `src/` is the library, written in Verus: every function carries a
  `requires`/`ensures` contract proved by the verifier, and the public proof
  functions (`lemma_*`) state the properties that hold across calls.
  The few calls into `std`, `serde_json`, `base64` and `image` go through
  small `#[verifier::external_body]` wrappers whose contracts say what the
  called function does.
- `tests/` runs the library on concrete values.
- `app/` is ordinary Rust around the library: files, HTTP, the timer loop,
  the status channel's task (over a `StatusSocket` that a WebSocket client
  provides), and the floating-point image work (OCR, CNN, colour blending).

Verify with `verus src/lib.rs --crate-type lib`.

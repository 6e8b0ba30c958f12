# mcu_module

The model behind a microcontroller pin-assignment panel, written in Verus:
pins and their functions, the virtual modules wired to them, devices
(named sets of pads), the module undo stack, the staged code-generation
style, the toolbar search, the assembly of the saved `mcu.config` text
from its sections, the module configuration panel's rows, and the text
the panel derives from all of it.

* `src/` — the verified library. Every public function carries a contract
  over spec functions and views; the laws the panel relies on (a pad is in
  one device at a time, undo reverts what was snapshotted, a sync leaves
  nothing dirty, reconciling never reuses a live module id, ...) are public
  proof functions.
* `tests/` — ordinary Rust tests of the library on concrete values.
* `app/` — the floating-point canvas geometry (rotation, wire routing, box
  outlines), which Verus does not verify.

Not done here: re-pointing a PWM pad to another channel of the same timer
does not move that channel's timer settings (its duty) along with it. The
timer settings type and its channel move belong to a modules layer that is
not part of this project, so `apply_pin_function` leaves timer settings
alone.

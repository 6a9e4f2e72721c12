# mac_led_tray

A menu-bar tray for the front LED of the Mac mini, and the privileged helper
that writes the LED's SMC key.

- `src/` is the verified library (Verus):
  - `text`: Unicode whitespace, trimming, field and word splitting, decimal text.
  - `protocol`: the tray/helper line protocol: parsing `PING` / `WRITE <key> <hex>`,
    building the LED command, the helper's replies; the tray's command always
    parses back to a write of the value.
  - `smc`: the two-call SMC key write as a state machine, key codes and records.
  - `led`: the tray's manual LED state and what each change writes.
  - `effects`: blink, strobe, pulse and SOS as cycles of steps, run by a
    cancellable runner.
  - `platform`: supported models, the unsupported-model alert, the setuid check
    and the helper's elevation script.
- `app/` is the program: AppKit UI, the helper process, IOKit calls, threads.
- `tests/` runs the library on concrete values.

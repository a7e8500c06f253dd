# picoboot

Host side of the PICOBOOT USB protocol, which the RP2040 and RP2350
bootloaders and compatible devices speak: find a device, connect to it, read,
write and erase its memory, reboot it, and send it extension commands.

The library under `src/` is verified with Verus.  It performs no I/O.  An
operation hands out one USB request at a time and goes on with the reply to it;
its contract says, as a `Script`, what it asks for and how it ends under every
sequence of replies.

- `script` - requests, replies, and scripts
- `cmd`, `bytes` - commands and statuses on the wire
- `target`, `timeouts`, `error` - the vocabulary
- `device` - which devices are wanted, and where PICOBOOT is found on one
- `kernel` - the kernel's own driver
- `connection` - operations on an open connection
- `picoboot` - operations that look after the connection themselves
- `reader` - reads of any range of memory
- `conduct` - the rule that every operation keeps to
- `memory` - what reads and writes do to a device's memory
- `laws` - what the operations promise beyond that

`app/` drives the library with `nusb`, on Linux, Android and macOS.

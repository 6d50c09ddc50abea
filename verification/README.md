# rtos_app_sdk

Application-side SDK for the jOS RTOS, verified with Verus.

- `src/` — the verified library:
  - `abi` — contract constants, task attributes, which kernel services are registered,
    the mount check.
  - `log`, `log_ring`, `log_task` — console line formatting, the log ring with its
    eviction policy (Info may evict the fewest oldest Info entries it needs; warnings
    and errors are never overwritten; a push that reports success keeps its entry in
    the ring), and the log
    task's rounds that pack ring entries into console frames.
  - `text` — truncating writer and decimal rendering.
  - `rtos`, `irq`, `device`, `ioctl` — task spawn requests, sleep/tick services,
    interrupt slot allocation, device lookup names, the I2C register-read
    transaction, ioctl codes and transfer layouts.
- `app/` — the embedding side: the C layout of the kernel service table, every call
  through it, raw memory, the console device, the log task loop, the entry point and
  a demo application.
- `tests/` — tests of the library on concrete values.

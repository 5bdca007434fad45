# `evdev` events, verified

Buffering, state tracking and event grouping for Linux input devices, written in
[Verus](https://github.com/verus-lang/verus).

- `src/` is the library. It performs no input or output: it says what it needs, and is handed plain
  values. Every function has a contract that is proved.
  - `event`, `bits`: events, event codes and sets of codes.
  - `wire`: events as the bytes that are exchanged with the kernel.
  - `batch`: buffers in front of reads and writes.
  - `reader`: groups events into reports, follows the state of the device (`state`, `mt`) and catches
    up with the device when events were lost. `laws` and `stream` state what holds across calls.
  - `hotplug`, `error`: enumeration of devices, and what failures mean to it.
  - `key_repeat`, `compare`: key repeat settings, and comparison of events.
- `app/` connects the library to device files, `uinput`, hotplug events, tokio and async-io.
- `tests/` runs the library on concrete values.

## Asking for the next report

```text
loop {
    match reader.next_report() {
        Progress::Ready(report) => use the report,
        Progress::Blocked(Request::Read) => read from the device, then reader.refill(&events),
        Progress::Blocked(Request::Resync) => fetch the device's state, then reader.resync(&state),
    }
}
```

## What is not proved

- What `Arc::make_mut` does, which `reader` relies on to let reports share their events with the
  reader.
- That the log which `batch::Logged` keeps of a closure holds every call of it. `BatchWriter` reaches
  the closure only through `Logged::hand`, which makes the call and logs it in two lines. Number,
  order and contents of the writes are proved over the log.

# TransferPlan

TransferPlan moves files and directories to removable storage, with parallel
workers, progress reporting, checkpoint resume and optional safe unmount.

- `src/` is the library: the queue, the copying of a file with its retries, the
  workers and their shared state, the checks before a batch, the settings, the
  session as a whole. Every rule in it carries a contract that Verus proves.
- `tests/` runs the library on given values.
- `app/` is the program: terminal, file system, processes and devices. It does
  what the library asks for, step by step, and tells it what came of that.

What is believed without proof is a handful of calls, each behind a small
function whose contract says what is claimed of it: the channels of crossbeam
(`src/channel.rs`), SHA-256 of sha2 (`src/verify.rs`), the tilde expansion of
shellexpand (`src/prompts.rs`), and `String::push`, `String::from_utf8` and
`String::from_utf8_lossy` of the standard library (`src/text.rs`). Nothing is
proved of `app/`.

## What holds

- A command to stop stops all workers: no command that is taken is lost, none of
  the workers takes another file after it, and the queue keeps what it holds.
- Only sources that existed when they were entered are listed.
- Files leave the queue in its order. When the workers are done, however they took
  turns, every file that left it is counted once, as completed or as failed; the
  queue is empty unless the transfer was stopped; and no space stays reserved.
- A source is removed only after its copy succeeded, and where copies are
  verified only after the digests agreed.
- A destination is touched only when its copy is complete, and a failed attempt
  leaves no temporary file.
- Retries wait twice as long each time, are bounded, and take back what they had
  counted.
- A queue is saved before and after each batch, and a saved queue resumes with
  the same items in the same order.

## Settings

`defaults.json` is looked for in the working directory, in
`$HOME/.config/transfer-plan/` and in `$HOME/.config/usb-transfer/`; the first
that can be read counts. Linux is the platform for mounts and unmounting.

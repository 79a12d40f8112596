# kcore

The core of a small teaching kernel for RISC-V, with its behaviour stated in contracts and
proved by Verus: kernel threads under a strict priority scheduler with priority donation,
sleeping threads, semaphores, sleep locks and condition variables, access to user memory,
user processes with their descriptors, arguments and exit values, and the system calls.

## How it is laid out

- `src/` is the verified library. It holds no global state and touches no device.
  - `thread/`: threads, the scheduler, the manager, sleeping threads.
  - `sync/`: semaphores, sleep locks, condition variables.
  - `mem/`: user memory, and words as bytes.
  - `userproc/`: open files, children and their exit values, arguments, starting a program.
  - `trap/`: registers, argument vectors, system calls and the steps they are made of.
  - `laws.rs` in each of these holds what is true of its part as a whole.
- `tests/` runs the library on concrete values.
- `app/` is the kernel around the library: stacks, registers, devices, and the loops that
  carry out what the library decides.

## How it works

Every type has a view, a value of mathematics: `Manager` is seen as a map of threads with
the levels of the scheduler, `Semaphore` as a number and a list of waiters, `UserMemory` as
a map from addresses to bytes. Every operation is a function on these views, and the
contract of the code says that it computes this function.

An operation that may have to wait does not wait itself. It says that the running thread has
been blocked and which thread runs instead, and is called again when the thread runs. System
calls go by steps in the same way: a step returns a value, asks the file system or the
console for something, or hands the processor on.

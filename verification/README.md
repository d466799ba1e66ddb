# tricore_kernel

A small async runtime for core 0 of an Infineon TC37x (TriCore): a thread executor
and interrupt executors that run tasks, a system tick with alarms, timers, a byte
pipe between tasks, blocking and stack-resource-policy mutexes, and a first-fit heap.

The decisions of the runtime are a verified library, written in Verus:

- `src/memory`: the heap's list of free holes, with allocation, deallocation and
  extension, and the proof that freeing a block gives back the list from before it
  was allocated.
- `src/sync`: the byte pipe on a ring buffer with its waiting tasks, the priority
  channel, and the blocking mutex.
- `src/srp_mutex.rs`: who shares a stack-resource-policy mutex, and how taking it
  moves the CPU's priority ceiling.
- `src/time`: the timer queue of the executors, the timer future's deadline, and the
  tick rate.
- `src/cpu`: alarm handles and the alarm queue, and the kernel state of core 0.
- `src/executor`: the scheduling state of the executors (run queue, timers, alarm),
  how each executor is woken, and the yield future.
- `src/bounded.rs`: the `heapless` collections the queues are built on, and the
  contracts their operations are trusted with.

`app/` is the firmware around the library: boot hooks, interrupt handlers, the
critical section, the UART, the heap allocator, the waker and task plumbing that polls
futures, and demonstration programs. It needs the board support crate of the TC37x.

`tests/` runs the library on concrete values.

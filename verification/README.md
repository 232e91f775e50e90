# asyncio

Small asynchronous I/O building blocks on top of mio and crossbeam channels: a
callback executor, a file-system worker with a blocking and a polling executor
thread, and a file read as a future.

- `src/` is the verified library (Verus). It holds the executor's handler table and
  the plan of calls for each polled batch, the task front end of the file-system
  worker and the decision each thread takes at every step, and the state machine of
  the file-read future. Calls into crossbeam, mio and std that the library makes
  stand behind small trusted wrappers whose contracts are stated in their doc comments.
- `app/` is the plain Rust around it: the mio poll loops, the threads, the file I/O,
  and the `Future` impl.
- `tests/` exercises the library on concrete values.

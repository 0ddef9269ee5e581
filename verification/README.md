# mini_runtime

A small single-threaded async executor with a readiness-driven reactor.

- `src/` is the verified library (Verus). `EventLoop<T>` is the reactor: the
  tasks that wait to be woken, the run queue of due wakeups, the tasks handed
  out to be polled and not yet filed back, the wakers registered per I/O
  token, and the task counter. Its mathematical state is
  `ReactorView<T>`; every operation is specified as a transition of that state.
  `run` and `spawn` are the decision steps of the executor loop; `laws` holds
  the properties that relate several operations.
- `app/` is the executor around it: the thread-local reactor, polling of
  futures, std wakers, the mio poller, and the TCP listener and stream types,
  plus the example client and server.
- `tests/` exercises the library on concrete values.

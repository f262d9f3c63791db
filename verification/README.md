# ppk2

Driver for the Nordic Power Profiler Kit 2, with its logic verified by Verus.

The kit streams 100,000 four-byte samples per second over a serial port. The driver
parses them, works out *when* each was captured, and delivers them averaged to the
requested rate. Samples are placed only by reads that drained the port, held until such
a read arrives, and never delivered with a timestamp that goes backwards unless a loss
is reported first.

* `src/` is the verified library. It decides; it does no I/O but read the clocks.
  * `frame`, `measurement`: frames, the spike filter, combining measurements.
  * `stream`: the timebase.
  * `worker`, `session`, `port`, `cmd`: what the measurement worker and its owner do
    next, and what an answer of the port means.
  * `types`, `clock`, `error`: what the others share.
  * `laws`: what holds over several calls, such as that every sample is accounted for
    and that time runs forward.
* `app/` is the device on a real port: serial I/O, the worker thread, and the
  calibration, which is floating-point arithmetic.
* `tests/` runs the library on concrete streams.

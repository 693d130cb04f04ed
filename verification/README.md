# ethernet-ip-adapter

The decision core of an EtherNet/IP southbound adapter, verified with Verus, and the program around it.

`src/` holds the rules: how a device is polled or pushed, which samples are published, how a session is
reconnected, what a configuration change starts and stops, how a TLS session is built, and what the metrics
count. Nothing in it waits, reads a clock, opens a socket or touches a file. A loop is a state that takes what
has happened and answers with what to do next, so that its contract covers every run.

`app/` performs what the core asks for. It owns the tasks, the sockets, the files, floating-point arithmetic and
the message bus.

| module | what it holds |
| --- | --- |
| `clock`, `text`, `json`, `ieee` | time, text, JSON values and number bits |
| `config`, `device`, `health`, `notice` | the data the rules speak of |
| `eip::types`, `eip::tls` | tag values and types; TLS settings, certificates and suites |
| `publish`, `engine`, `poll`, `push` | deadbands, windows, staleness, and what is published |
| `poll_driver`, `push_driver`, `pause`, `step` | the loops of a polled and of a pushed device, pausing them, and the order their steps are carried out in |
| `reconnect`, `security_lifecycle` | the reconnect ladder; enrolment and rotation of certificates |
| `lifecycle`, `startup`, `reload`, `transaction` | teardown, start, and changes of configuration |
| `counters`, `rows`, `device_metrics`, `emit`, `metrics`, `status`, `observed` | what is counted and reported, and in which order |
| `sim` | a simulated device |

A proof function whose name is a sentence states a property of the whole. The functions of `rustls`,
`rustls-pemfile`, `x509-cert`, `time` and `std` that the core calls stand in `eip::tls`, each behind a wrapper
whose doc comment says what is taken for granted of it.

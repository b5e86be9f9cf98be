# win_etw_tracing

Emits traced spans and events as Windows ETW TraceLogging events.

The library under `src/` decides what is emitted and lays out the bytes. Its
functions carry contracts that Verus proves, but for the few wrappers named
below, which are taken on trust; `laws.rs` and `reading.rs` state what holds
across functions. The crate under `app/` ties the library to
`tracing_subscriber` and to ETW: it collects the fields of spans and events,
asks ETW whether an event is wanted, and writes it.

| module               | what it holds                                                  |
| -------------------- | -------------------------------------------------------------- |
| `keyword`            | levels, level sets, keyword rules                               |
| `field`              | fields and their values as they are recorded                   |
| `event_writer`       | aliases, global fields, the payload of an event                |
| `deferred_values`    | values recorded on a span until it closes                      |
| `activity_id`        | GUIDs, and the activity ID of a new span                       |
| `subscriber`         | the settings, and the event for each thing that happens        |
| `wire`, `text`       | byte layout and string comparison                              |
| `etw`                | the constants of `win_etw_metadata`                            |
| `laws`, `reading`    | proofs about whole events, aliases, keywords and spans         |

What is taken on trust: the constants in `etw`; in `activity_id`, how
`win_etw_provider` parses a GUID, and its query of the calling thread; in
`event_writer`, two conversions of the standard library into `String`.

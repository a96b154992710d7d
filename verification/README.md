# tedge-dot

Connectors between industrial (OT) protocols and the MQTT broker of thin-edge.io. A connector reads
the points of its devices, publishes each reading, tells how the link to each device stands, carries
out write commands, and takes changes of its configuration while it runs.

The library under `src/` holds what a connector decides and computes. It is written in Verus: each
function states in its `ensures` what it returns, and what holds across functions stands beside them
as public proof functions. `app/` holds what touches the world: the command line, files, the broker,
OPC UA sessions, the clock, and arithmetic on floats.

| Modules | What they are about |
|---|---|
| `text`, `keyed`, `json`, `clock`, `message` | texts, ordered maps, JSON values, durations, MQTT messages |
| `config`, `model`, `connector`, `capabilities`, `descriptor` | the configuration, samples, what a protocol module offers, parameters and their sets |
| `manifest`, `dtm` | the manifest of a device, and definitions for a digital twin |
| `loading`, `document`, `management` | the text of a configuration, changes of its document, and how each is carried out |
| `routing`, `batch`, `commands` | whom a command is for, what it asks for, and what is answered |
| `links`, `samples`, `policy`, `schedule`, `runtime` | link states, numbered readings and which of them are published, what is polled and what is pushed, and a connector as it runs |
| `cli`, `selection` | arguments, and the points that a read or a write by hand is about |
| `ua_values`, `ua_client`, `ua_session` | the OPC UA module: values, points, sessions and subscriptions |
| `conformance*`, `inspect`, `report` | how a running connector is put to the test |

A call into another crate stands behind a small trusted function whose comment says what is taken
for granted of that crate.

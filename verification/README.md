# vpe — a verified process engine

VPE decides; the host does.  A process *law* (states, transitions, guards,
effects) is checked against a typed *schema*, compiled into a process graph,
and then asked, one turn at a time, what a process instance may do next given
its context and the relevant slice of its history.

The library under `src/` is written in Verus: every function carries a
contract and is proved against it.

| module       | what it holds |
|--------------|---------------|
| `json`       | JSON values and objects as the engine reads them, with their mathematical model |
| `number`     | ordering JSON numbers as binary64 values, on integers alone |
| `text`       | character-level string helpers |
| `error`      | schema, compile and runtime errors and their messages |
| `types`      | process references, events, manifests, requests, verdicts |
| `schema`     | domain schemas: namespaces, field resolution, schema rules |
| `law`        | laws as authored |
| `registry`   | the built-in guards, their factories and the guard registry |
| `manifest`   | what the host must load before a turn from each state |
| `graph`      | the state graph: reachability and `AUTO_TICK` cycles |
| `validate`   | checking a law against its schema and registry |
| `digest`     | SHA-256 of a law document, in lower-case hex |
| `compile`    | compiling a law into nodes and priority-sorted edges |
| `runtime`    | one decision turn |
| `kernel`     | a compact field catalogue and self-contained guards |

`app/` is the command line (`validate`, `compile`, `manifest`): it reads the
JSON documents with serde, hands the library plain values, and prints the
results.  The library never serialises: `compile` takes the law document's
bytes for the digest.

## Guards

A law's guards come from a closed set: the ten built-in guard types
(`Default`, `GreaterThan`, `Equals`, `OccurredWithin`, `TimeElapsed`,
`FieldsEqual`, `Exists`, `MissingField`, `InSet`, `NotInSet`).  A
`GuardFactory` is one of these ten kinds, and `register_guard` only maps a
name to one of them, so the registry can rename or restrict the built-in
guards but cannot take a guard implementation of the host's own.  This keeps
every guard's behaviour a spec function that the turn is proved against.  A
registry of host-supplied factories would hold `dyn Fn` closures, and Verus
does not accept `dyn Fn` trait objects.

## Manifests

A state's manifest lists everything its guards read, so the host knows
exactly what to load: the `path` of each `GreaterThan`, `Equals`, `Exists`,
`MissingField`, `InSet` and `NotInSet` guard, both paths of a `FieldsEqual`
guard, `sys.now` for a `TimeElapsed` guard, the window of each
`OccurredWithin` guard, and always the last transition.  A turn checks that
the context holds every listed field before it decides, so a field that a
guard reads but finds absent must still be supplied, as `null`.

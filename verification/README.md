# broken_pipeline

The task, operator and pipeline protocol of Broken Pipeline, verified with Verus.

## Layout

- `src/` — the verified library:
  - `channel.rs`: the state machine of one channel on one lane (source, pipes, drains,
    sink, blocking and the yield handshake), with its laws;
  - `pipeline_exec.rs`: the small-step runtime that runs a stage's channels on each lane;
    a channel's run is the lane machine (`run_spec`) over the operators' answers to the
    calls it makes, and a runtime step is the model `scan_spec` over what each channel
    met; `ExecContext` and `Resumer` name those answers for the users' operators;
  - `compile.rs`: stage splitting around implicit sources, against an exact
    specification, with its laws;
  - `schedule/`: resumers, awaiters, the schedule errors and the decisions of running a
    task group (which task runs, when a blocked task is checked, how the group ends);
  - `c_api.rs`: the status codes of the C interface and the conversion of what a C
    callback reports;
  - `traits/arrow.rs`: the Arrow binding and the one call into `arrow_schema`.
- `app/` — plain Rust around the library: tasks and operators as trait objects, the
  threads of the schedulers, blocking awaiters, and the exported C functions.
- `tests/` — the tests of the library.

Operators are named by identities in the library; `app/` keeps the operator objects
behind those identities and makes the calls that the runtime asks for.

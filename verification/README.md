# microscaler_observability

Configuration and start-up decisions of the microscaler observability
adapter (OTLP traces and logs through `tracing`), written in Verus.

- `src/` — the verified library: the text model (`text`), the configuration
  read from the OpenTelemetry environment variables (`config`), the error
  type (`error`), the start-up decisions (`bootstrap`) and the shutdown guard
  (`shutdown`).
- `app/` — the process-facing part: reads the environment, builds the OTLP
  exporters and providers, installs the OpenTelemetry globals and the
  `tracing` subscriber as `bootstrap` decides.
- `tests/` — tests of the library.

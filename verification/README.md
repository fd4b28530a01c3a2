# cartografo-telemetry

OpenTelemetry tracing for a Rust service: traces over OTLP/HTTP, a span for each HTTP
request, and W3C context propagation so that two services produce one trace.

- `src/` is the library, verified with Verus. It decides what is exported, where, under
  which name and in which trace. Configuration (`config`, `pairs`, `environment`), span
  naming (`http_span`), propagation (`propagate`, `context`), building the exporter
  (`exporter`, `export_plan`), filtering (`subscriber`, `directive`) and installation
  (`telemetry`) each state their behaviour as contracts. The functions named `law_…` state
  what holds across them.
- `app/` reads the process environment, prints complaints to stderr, and implements the
  traits of `tower-http`.
- `tests/` runs the library with the OpenTelemetry crates linked.

## What it guarantees

**Nothing on the wire until an endpoint is configured.** Without an endpoint there is
no exporter, no provider and no registered propagator, and a trace context that is not
valid is never written into a request.

**Two services, one trace.** Where both services have the propagator of W3C
`traceparent` registered, which an installation that exports registers, the context that
one service writes is the one that the next reads (`law_two_services_one_trace`).

**A failure to export is never a failure to serve.** `install` reports the problem and
returns an inert handle.

## What is taken on trust

The calls into the OpenTelemetry, `tracing` and `http` crates stand behind small wrapper
functions marked `external_body`. Each says above its signature which function it calls
and what is claimed of it. Those whose result stands for something that was built, read or
registered have modules to themselves (`context`, `env_filter`, `parent_based`,
`registration`, `tracer_provider`), so that no other code can make up such a result.

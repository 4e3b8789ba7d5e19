# cyberium

Machines for tests, handed out on an organisation's own rules.

A controller owns a fleet of test machines. A caller pleads for some of them; how many the
plea deserves is weighed by a model against what the caller's organisation has written down.
Every number the model answers with is then cut to limits that people wrote: the policy's own
ceiling, the host's, what is free, and what the budget buys at worst.

## Layout

- `src/` is the library, verified with Verus: the fleet and its reservations, budgets and
  ledgers, policies, uploads, tenants, attestations, what a controller answers to each plea,
  what a worker and a tester do with what they are told, and how each command line is read.
  What holds across functions is stated as `law_` proof functions beside them.
- `app/` is the `cm` program around it: files, connections, the model, the shell. Its
  `lib.rs` is the same controller as a library.
- `tests/` runs the library on concrete values.

## Trust

The library calls `serde_json` (with `serde`), `data-encoding` and `ring` behind small functions whose
contracts are not proved, and a few functions of the standard library. Each says in its
documentation what is claimed of the function it calls.

## A controller of your own

What varies between deployments is what a controller knows about the people who ask it. A
deployment with an identity service implements `Directory` against it, in `app/lib.rs`'s
terms, and calls `run(Box::new(MyDirectory))`. What a caller gets is a `Tenancy`: its facts
are carried to the model and never interpreted, and `may_write` never comes from a policy.
`testing::scratch` gives tests of such a controller directories that never collide.

## Building `cm`

`CM_DEFAULT_MODEL`, set at build time, names the model that is asked where the environment
variable `CM_MODEL` names none. A build without it asks for `CM_MODEL`.

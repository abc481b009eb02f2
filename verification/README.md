# erabasic_vm

The interpreter core of the erabasic virtual machine, written and proved in
Verus. The library takes a loaded program as data and executes it one
instruction, and one step of a run-time expression, at a time.

- Instructions: `basic`, `terminal`, `dispatch`, `arithmetic`, `calls`,
  `user_calls`, `bit_calls`, `existvar`, with the state they work on in `state`,
  `memory`, `program`, `places` and `frames`.
- Shortcuts that leave the machine as the long way would: `fastpaths`, `memo`,
  and `bulk_plans`, which finds the loops that can be taken in bulk; `bulk_laws`
  and `bulk_code` prove that nothing but the time differs.
- Services on arrays and characters: `arrays`, `array_ops`, `sorting`,
  `extended_ops`, `character_query`, `character_ops`, `random_state`.
- Failures and reports: `fault`, `faults`, `diagnostics`.
- Formatted texts and expressions that are evaluated at run time: `ast`,
  `terms`, `forms` and the `form_*` modules; `form_run` starts, resumes and ends
  an evaluation, and `form_replies` takes the answers to what it asks for.

Every type has a mathematical view, and every function says over those views
what it leaves and what it answers. Proof functions whose names start with
`law_` state what holds of several operations together.

Work that belongs to the outside (parsing a source, asking the host, calling a
registered service) is handed out as a request; the reply goes to the function
that finishes it. `tests/` runs the library on whole programs.

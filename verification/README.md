# aegisproxy

The configuration model, validation rules and request-decision logic of the
AegisProxy reverse proxy, written in Verus. Each public function carries a
contract stated over spec functions and views, and Verus proves the code
against it.

## Layout

- `src/schema.rs`, `src/map.rs`: the configuration types. `OrderedMap` keeps
  its entries in key order (as `str` orders texts) under a type invariant.
- `src/config.rs` and the modules it calls (`routing`, `middleware`, `acme`,
  `platform`, `conflict`, `naming`, `secret`, `net`, `web`): `validate`, which
  accepts a configuration exactly when `config_ok` holds and otherwise returns
  the message of the first rule broken.
- `src/route.rs`, `src/index.rs`, `src/request.rs`, `src/admission.rs`,
  `src/negotiate.rs`, `src/cors.rs`, `src/pipeline.rs`, `src/forwarding.rs`,
  `src/inflight.rs`, `src/upstream.rs`, `src/stages.rs`: request handling. That
  covers route selection and its order-independence laws, the fixed order of
  the middleware stages, limits, CORS, header mutations and the upstream
  target.
- `src/discovery.rs`, `src/provider/`, `src/lifecycle.rs`: endpoint providers,
  covering per-provider refresh state, the reconcile steps and the published
  status snapshot.
- `src/revision.rs`, `src/renewal.rs`, `src/issuance.rs`, `src/node.rs`:
  revision identifiers, retention, the activation journal, certificate
  renewal state.
- `src/redact.rs`: the export copy of a configuration with every secret
  reference replaced.
- `tests/`: tests on concrete values.
- `app/`: the parts that need I/O or serde. These are the TOML/JSON
  schema copies and the loop that runs the stage step function.

Calls into outside crates (`url`, `http`, `ipnet`, `argon2`, `sha2`,
`base64`, `age`) stand behind `external_body` wrappers. Each wrapper's doc
comment names the function it calls and says what its contract claims.

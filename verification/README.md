# smoothie

The logic of a small hosting platform, written in Verus and proved
against its contracts. Three services share it:

- the **API**: apps, services, package uploads and deployments of a
  signed-in GitHub user;
- the **hypervisor**: checks package archives, keeps a pool of idle
  containers, injects packages and runs them, and serves interactive
  boxes;
- the **router**: starts packages on the best ranked hypervisor (trying
  the next one when a start fails), binds hosts to containers, expires
  idle bindings and keeps the registry of explicit deployments.

## Layout

- `src/` is the verified library. `api/`, `hypervisor/` and `router/`
  hold each service's decisions; `tarball.rs` models what the tar reader
  reports of an archive; `order.rs` is the stable ordering behind every
  listing, with its laws; `reply.rs` is how the replies of other
  services are read; `text.rs` holds string building blocks.
- Calls into outside crates (`tar`, `sha2`, `urlencoding`, `serde_json`,
  `dashmap`, `reqwest`'s URL parser) stand behind small trusted wrappers
  whose contracts are stated over named results.
- `app/` is ordinary Rust around the library: configuration loading,
  the serde forms of the library's records, clocks and ids, file reads,
  socket reservation, and the loops that perform requests and hand the
  replies back to the library's step functions.
- `tests/` exercises the library on concrete values.

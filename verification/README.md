# fwp

The decision logic of a FreeBSD web-administration service, written in
Verus and proved against its contracts: parsers and writers for the
system's configuration files (`rc.conf`, `jail.conf`, `resolv.conf`,
`sysctl.conf`, crontabs, `pkg` repository files, `smb4.conf`, mbox
mailboxes), validators for every request field, the plans of `ifconfig`,
`pw` and `route` commands, firewall rule ordering, the login decisions,
and the interpretation of what system tools report (`geom`, `smartctl`, `getifaddrs`, `sysctl`).

## Layout

- `src/` — the verified library, one module per subject. Each public
  function states its result in `ensures` over spec functions on
  `Seq<char>`, `Seq`, `Option`, and views of the library's types; laws that
  relate several functions are public `proof fn`s next to them.
- `src/text.rs` — the string model the rest is stated in (`trim`, `words`,
  `lines`, `split_char`, `join`, ...) with its lemmas, and the few trusted
  wrappers around `regex` and `std` calls.
- `tests/` — tests run against the compiled library.
- `app/` — the unverified edges: running commands, the kernel's interface
  list and interface ioctls, reading directories, decoding `smartctl`
  JSON, and the loops that carry out the library's step functions
  (applying a plan of `ifconfig` or `pw` commands, removing a deleted
  jail's files, a remote browse). It hands the library plain values and does what
  it returns.

# Avel Pilot

Avel Pilot publishes homelab services that are declared in YAML. It compares what
the declaration asks for with what Cloudflare DNS and Nginx Proxy Manager hold,
and makes exactly the changes that lead from one to the other.

- `src/` is the library: the rules, the conversions, and the steps of a run and of an
  edit, each with its contract and verified with Verus.
- `app/` is the `avel-pilot` command: arguments, files, HTTP, the terminal. It performs
  the steps, and asks again where an answer cannot be read.
- `tests/` runs the library on concrete values.

## The library

- `config`: what the two files declare, and `${VAR}` references
- `reconciler`: validation, the desired state (`desired`), the changes (`diff`), the
  plan that is shown (`plan`), and the run that applies it (`run`)
- `dns_provider`, `proxy_provider`, `cert_provider`: records, hosts, certificates, and
  what the APIs of Cloudflare and Nginx Proxy Manager say and are told
- `services`, `entry`, `prompt`, `table`, `version`, `paths`, `logging`: what the command
  shows, asks and reads
- `text`, `order`, `sorted_map`, `address`, `json`, `api`: the ground the others stand on

## What is proved beyond the contracts

- A run that ends well leaves the providers in the desired state, and another run
  would change nothing (`reconciler/run_laws.rs`).
- The plan that `diff` shows is what `apply` does. Where the certificate is still to be
  created, the plan cannot know its number, and so not which existing TLS hosts will
  differ from it; all else is the same (`reconciler/run_laws.rs`).
- Only managed records and hosts are ever updated or deleted, and certificates are
  only ever created (`reconciler/ownership_laws.rs`, `reconciler/diff.rs`).
- What is created is recognised as managed when it is listed again
  (`dns_provider/cloudflare.rs`, `proxy_provider/npm.rs`).
- Every service of a valid declaration is published under its own domain in the zone
  (`reconciler/service_laws.rs`).
- Services are saved only where the whole declaration is valid, and an edit is given up
  only after its values were refused (`services.rs`). Blank lines keep the current
  values (`entry.rs`).

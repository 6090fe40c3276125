# Sotto accounts

The account-side logic of the Sotto secret manager, written in Verus: who is covered by the Cloud
service, how coverage is stored and reconciled, and how a command line signs in.

- `src/` is the verified library.
  - Coverage: `cloud_coverage` evaluates one person's coverage at an instant, over the rules in
    `coverage_facts` and `coverage_spans`.
  - Storage: `cloud_coverage_store` publishes and loads projections over `coverage_tables`, the rows
    and staged writes of one transaction.
  - Reconciliation: `cloud_coverage_reconciliation` registers sources and runs collections, over the
    rules in `collection_rules` and `reconciliation_rules`.
  - Login: `auth`, `callback`, `login`, `urls`, `keychain` and `error`.
  - Fuzzing: `base32_codec` and `key_strings` decide what to try on the codec.
  - Laws: `coverage_laws`, `collection_laws`, `store_laws`, `coverage_invariant` and
    `reconciliation_laws` state what holds of several operations or of every history.
- `tests/` runs the library on concrete values.
- `app/` connects it to Postgres, the network and the browser.

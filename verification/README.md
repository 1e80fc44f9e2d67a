# TAR Vault Sync

A local-first agent that keeps development secrets in sync between approved
sources (Azure Key Vault, Google Secret Manager, an encrypted local vault,
optionally kept in Google Drive or OneDrive) and local targets (`.env`, JSON,
YAML, properties and Docker environment files, certificate and key files, Git
Credential Manager entries).

The library under `src/` is written in Verus: every function carries a
`requires`/`ensures` contract, and the laws that span several functions stand
as public proof functions (their names begin with `law_`).

- `domain`, `config`, `form`, `desktop`: the configuration model, its
  validation and the binding editor.
- `vault`, `ledger`, `registry`, `catalogue`: the encrypted local vault, the
  sync ledger and the connection registry.
- `cloud`, `drive`, `oauth`, `browser_import`: the provider protocols, the
  cloud-file protocol with its conditional writes, the sign-in flow and the
  browser password import.
- `keyvalue`, `targets`, `compose`, `text`: the file renderers and the Docker
  Compose environment-file rules.
- `engine`, `scheduler`, `ipc`, `fakes`: the sync state machine, its timing,
  the agent's request handling and the test doubles.

Calls into outside crates (encryption, key derivation, encodings, YAML and
JSON parsing, the OS credential store) go through small trusted wrappers whose
doc comments say what each contract claims.

`app/` holds the command-line program around the library: argument handling,
files, locking, the agent loop and its socket. `tests/` holds the tests.

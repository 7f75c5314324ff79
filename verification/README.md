# discord_shield

Token hardening for the Discord client: finds authentication tokens in the
client's LevelDB store, keeps them XOR-scrambled in memory and AES-256-GCM
encrypted on disk, and watches processes, files and the process status for
token stealers.

- `src/` is the library, written in Verus: text handling (`text`), token
  and webhook search (`utils`), key derivation, encryption and scrambling
  (`crypto`), the configuration (`config`), the `/proc` checks
  (`linux_hooks`), memory, process and file monitoring decisions
  (`memory_guard`, `process_monitor`, `file_monitor`), the token vault
  (`token_vault`) and the activation order (`shield`). Its functions carry
  contracts that Verus proves, except the few `#[verifier::external_body]`
  wrappers around outside calls, whose contracts are trusted:
  `to_lowercase` and `string_from_chars` (std), `regex_find_all` (regex),
  `sha256` (sha2), `aes256gcm_encrypt` and `aes256gcm_decrypt` (aes-gcm),
  `random_bytes` (rand), `string_from_utf8` (std), and `vault_to_json` and
  `vault_from_json_bytes` (serde_json).
- `app/` is the program around it: logging, reading and writing files,
  `/proc` and the environment, threads and the file watcher.
- `tests/` exercises the library on concrete values.

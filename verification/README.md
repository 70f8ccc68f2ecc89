# lumen

The logic of a private Lumina server for IDA Pro, verified with Verus.

- `src/credentials.rs`: web user passwords stored as `salt:hex(sha256(salt ++ password))`;
  hashing with a time-based salt, and checking a password against a stored hash.
- `src/clock.rs`: readings of the system clock, turned into Unix timestamps and nanoseconds.
- `src/web_auth.rs`: HTTP Basic authentication of the web API.
- `src/lumina_env.rs`: keeping IDA's `LUMINA_TLS` switched off (the decision on the
  current value, the shell's rc file, and the rewrite of that file's text).
- `src/sql.rs`, `src/db.rs`: the statements of the metadata store and what it makes of
  their result rows (pulling and pushing function metadata, users, files, databases).
- `src/text.rs`: sequences split and joined at a separator, and small text helpers.
- `app/`: the program around the library: database connection, web server, environment
  and files.

# otp

Time-based one-time passwords from a local secrets file, verified with Verus.

`otp <service>` prints the current code of a service and copies it to the
clipboard; `otp add`, `otp rm` and `otp ls` edit and list the services.  The
secrets file is a text with one `service:value` entry per line, where a value is
a base32 secret or an `otpauth://` URI and `#` begins a comment line.

## Layout

- `src/` is the library.  Every function states what it returns, and the proofs
  are part of the source.
  - `hotp`, `totp`, `mac`: codes (RFC 4226, RFC 6238) over HMAC
  - `secret`, `base32`, `bytes`: secrets and the keys they encode
  - `otpauth`, `percent`, `algorithm`: URIs and their parameters
  - `store`: the secrets file, its entries, adding and removing
  - `command`, `clipboard`: what the commands decide and print
  - `text`, `decimal`, `error`: characters, numerals, problems and messages
- `app/` is the command-line program: arguments, files, the clock, processes.
- `tests/` runs the library on concrete values, the RFC vectors among them.

What holds of the library as a whole is stated by the public proof functions
whose names begin with `law_`.

## What is trusted

The proofs rest on the contracts of a few functions that they do not look into:
HMAC with SHA-1, SHA-256 and SHA-512 (`mac`), the base32 decoder of
`data_encoding` (`base32`), `String::from_utf8_lossy` (`percent`), the `Debug`
form of a string (`error`) and `String::push` (`text`).

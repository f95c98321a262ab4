# sobre

`sobre` puts a file in a sealed age envelope (age-encryption.org/v1). The
secret enters through stdin and never through the command line; with `--para`
the envelope is closed to x25519 public keys instead of a passphrase.

The cryptography is the `age` crate's. This crate is the rest of the tool,
written in Verus and proved against its contracts:

- `src/argumentos.rs`: the command line, as a reading of the arguments that
  refuses a secret passed as an argument, unknown options and combinations of
  flags that mean nothing.
- `src/clave.rs`: the passphrase as it arrives on stdin, framed
  (`<length>\n<passphrase><content>`) or not, in UTF-8 or UTF-16LE.
- `src/relleno.rs`: ISO/IEC 7816-4 padding to a block, and its removal from a
  stream holding back only what may still be padding.
- `src/llaves.rs`: the recipients and identities handed to `age`, and the
  identity file.
- `src/error.rs`: the error of the tool, its messages, and the exit codes that
  tell a wrong secret (2) from something that is not an envelope (3) from an
  envelope that asks for too much work (4) and from everything else (1).
- `src/texto.rs`: text helpers (decimal numbers, trimming, upper case).

`app/main.rs` is the program around the library: reading stdin and files,
writing stdout and files, and running `age`'s streams.

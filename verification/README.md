# shellcd-basic

A small, hardened GitLab CI tool that connects to one Linux server over SSH and runs one
validated script below `/opt/shellcd/scripts/`.

The library (`src/`) is written in Verus and proved:

- `validation`: the checks on host, SSH user, script path, caller email, the private key
  and known-hosts files, each with the exact rule order and error text;
- `config`: the checked run configuration, built from the arguments and from what the
  machine reports (what the file system says of the two files);
- `shell` and `ssh`: POSIX quoting, the remote command line and the OpenSSH client's
  arguments, with the proof that the remote side reads every value back as one
  unchanged argument;
- `execution`: the course of a run as a step function (hooks, logs, client, result);
- `error`, `cli`, `text`: failures and exit codes, the `--dorarion` value, characters.

`app/` is the program around it: clap, logging, the file system, and the OpenSSH process.

# wi-mesh-login

A command-line client for the Wi-MESH captive portal (`login.net.vn`) and its
shop and card-usage services, built around a library whose logic is
specified and proved with Verus.

## Layout

- `src/` — the verified library.
  - `portal.rs`: finding the `form#login-user` form in the portal page
    (HTML parsing by `scraper`), filling in its fields, resolving its action
    (by `url`), choosing the interface address, rendering headers, and
    judging the result of a posted login.
  - `urlencoded.rs`: the `application/x-www-form-urlencoded` body, with the
    proof that parsing it gives back exactly the fields that were sent.
  - `json.rs`: JSON values as the services send them, their accessors and
    their compact text.
  - `reward.rs`: the shop's replies, which daily tasks to claim, the MD5
    password hash and device IDs.
  - `credentials.rs`: the record kept in the operating system's credential
    store (`keyring`) and reading it back.
  - `usage.rs`: card-check replies, timestamps (by `time`) and the layout of a
    card's details and its session table.
  - `text.rs`: character-level helpers.
- `app/` — the program: command line (`clap`), HTTP (`reqwest`), files,
  terminal prompts and the loops that drive the library.
- `tests/` — tests of the library, run against the real outside crates.

## Usage

```sh
wi-mesh-login [OPTIONS] <USERNAME> <PASSWORD>
wi-mesh-login [OPTIONS] --logout
wi-mesh-login shop --login | --reward | --forget [--state-dir DIR]
wi-mesh-login usage [--sessions] [--state-dir DIR] <PIN>...
```

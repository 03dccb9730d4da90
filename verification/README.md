# dnf_generator

Configuration and documentation generator for the Darkone NixOS Framework,
written in Verus: the library's behaviour is stated in `requires` / `ensures`
contracts and proved.

## Layout

- `src/` — the verified library.
  - `schema`, `configuration`: the checked shape of `config.yaml` and the
    loader that turns it into users, hosts, zones, services and DNS records.
  - `zone`, `network`, `host`, `user`, `service`, `validation`: the fleet
    model and its rules (unique names, addresses, MACs, aliases, DHCP ranges,
    service placement, UID ranges).
  - `yaml`: layering the generated configuration over the hand-written one,
    and YAML values as Nix tokens.
  - `token`: Nix values, lists and attribute sets rendered as Nix source.
  - `nix_syntax`: Nix sources read with `rnix` into the syntax tree that
    the library walks.
  - `nix_parser`, `mdx_parser`, `module`, `mdx_writer`: the module reference
    pages, read from the modules' Nix sources.
  - `strmap`, `text`, `files`, `error`: ordered maps, string helpers, the
    project tree, errors.
- `app/` — the command-line program: argument handling, file reading and
  writing, YAML parsing into the library's values.
- `tests/` — tests of the library.

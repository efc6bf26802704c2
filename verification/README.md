# portage-repo

A reader for Gentoo ebuild repositories: `metadata/layout.conf`, categories
and packages, `Manifest` files, profiles and their stacks, `profiles/updates`,
the metadata cache, and the decisions of the embedded ebuild shell (the
package-manager variables, `inherit`, the PMS helper commands and the EAPI
feature predicates).

## Layout

- `src/` is the library, written in Verus. Its functions take the text of
  files and the entries of directories as arguments and carry contracts that
  Verus proves; the few calls into outside crates (`portage_atom`,
  `portage_metadata`, `gentoo_core`, `lasso`, `md5`) stand behind small
  items whose contracts say what those crates are relied on for.
  - `manifest`, `profile`, `layout`, `repository`, `category`, `ebuild`:
    the repository's files and directories.
  - `walk`, `stack`: depth-first resolution of master repositories and of
    profile parents.
  - `pms`, `inherit`, `shell`, `useflags`, `ver`: what the shell builtins
    print, return and run (`ver_cut`, `ver_rs` and `ver_test` among them),
    how eclass values accumulate, and the variables an ebuild is sourced
    with.
  - `cache`, `arch`, `eapi`, `text`, `util`: `md5-cache` entries (parsed,
    built from an ebuild's metadata and written out) and checksums,
    architecture tokens, EAPI levels, and text and path helpers.
- `app/` is ordinary Rust around the library: reading from disk, the
  `brush` shell with its builtins, and metadata regeneration.
- `tests/` exercises the library on concrete values.

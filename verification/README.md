# lingora

Integrity audits of Fluent (`.ftl`) translation files, and generation of the
Rust code that configures `dioxus_i18n`, written in Verus with contracts that
Verus proves.

## Layout

- `src/` — the verified library.
  - `locale`, `paths`, `identifier`, `walk`, `definitions`, `document`:
    locales, paths, qualified Fluent identifiers, and the definitions and
    references of Fluent documents (parsing goes through `fluent4rs`).
  - `workspace`, `issue`, `rules`, `pipeline`, `result`, `engine`: the audit —
    files grouped by locale, documents classified as canonical, primary,
    variant or orphan, and the issues found between them. `rules` states the
    whole audit as specification functions; `laws` proves what holds of it.
  - `report`, `dioxus`: the text report and the generated configuration code.
  - `config`: the settings of `Lingora.toml` and the command line.
  - `integrity`, `usage`, `settings`, `analysis`, `reference_config`: the
    single-reference analysis — identifiers and warnings, the choice of the
    reference file, the grouping of files by locale and language, its report
    and its configuration code.
- `tests/` — tests on concrete values.
- `app/` — the `lingora` command: command line, file reading and writing.

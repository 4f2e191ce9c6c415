# lambda_finder

A desktop helper for a set of AWS SAM service repositories:

* **Find Lambda / Logs URL** — given a search term (an API path or a Lambda
  logical ID) and an environment, find the templates that mention it, the
  Lambda resource it refers to, the deployed function name and log group,
  and the AWS console URLs for both.
* **Pull Latest Branches** — fetch, check out and pull one release branch
  across the configured repositories, logging every step.

## Layout

* `src/` — the verified library (Verus).
  * `text.rs` — whitespace, trimming, splitting and substring search over
    characters.
  * `pattern.rs` — the template line patterns, matched with the `regex`
    crate, and what each of them matches.
  * `repos.rs` — the repository table and stack name prefixes.
  * `template.rs` — scanning a template for a resource; resolving
    `FunctionName:` templates.
  * `finder.rs` — query checks, folder selection, `grep` output, matches
    and console URLs.
  * `search.rs` — a search as a session of requests and answers.
  * `pull.rs` — a branch pull as a session of requests and answers.
  * `config.rs` — the persistent settings.
* `app/` — the Tauri shell: commands, settings file, processes, updates.
* `tests/` — tests of the library.

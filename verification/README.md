# yunexal_panel

The decision logic of the Yunexal container panel, verified with Verus.

`src/` is the library. Every function in it carries a contract that Verus proves:

- `text` — string handling over `Seq<char>` (trimming, splitting, lines, words,
  decimal forms and parsing) shared by the other modules.
- `host` — how the panel finds administrative tools, detects the init system, decides
  between running a command directly or through `sudo -n`, and writes sudoers entries.
  The host is described by a `HostFacts` value; `host_probe_paths` lists every path
  whose existence those decisions may ask about.
- `quota` — size strings, the ext4 project-quota mount of a path read from the mount
  table, and the `chattr` / `setquota` arguments.
- `version_control` — validation of repositories and branches, confinement of paths to
  a volume, the git invocations of each action and the reports built from their
  results, and the GitHub authorization URL.
- `servers` — member capabilities, policy modes, defaults and what a stored policy
  grants.
- `containers` — which containers a user sees, how the panel's records are attached,
  console excerpts and labels.
- `auth` — service and form login outcomes, the session cookie, numeric settings and
  the Under Attack Mode triggers.
- `setup` — the files and commands of the setup wizard: prompts, `.env`, the calendar
  date of a timestamp, shell quoting, the launcher, the OpenRC service and the nginx
  configuration.

Public `lemma_*` proof functions state properties that span several functions, such as
that a path joined under a volume never leaves it, or that a written `.env` reads back
its port.

`app/` is the unverified side: it reads the host, runs processes, talks to SQLite,
Docker, git and GitHub, and carries the serde forms of the library's types.

`tests/` runs the library on concrete values.

# magictree

Per-worktree development stacks. A repository describes its stack in `magictree.toml`; magictree
resolves worktree identity, allocates ports, materialises the environment, bootstraps the checkout
and supervises services, so the same stack runs in every checkout without a clash.

## Layout

- `src/` is the library: every decision magictree makes, with its contract proved by Verus. Files,
  processes, git, docker and the network are not in it. A function takes what was observed as plain
  values, and answers what to do, or which thing to look at next.
- `app/` is the program around it: the command line, and the reading and writing that the library
  decides about.
- `tests/` runs the library on concrete values.

| Module | What it decides |
|---|---|
| `text`, `dict`, `lists`, `value`, `paths`, `slug` | texts, sorted maps, documents, paths and names |
| `config`, `manifest` | the configuration of a machine, and the manifests of a repository: what is refused, what depends on what, and in which order it starts |
| `ports` | port blocks: who gets which port, and that no two worktrees share one |
| `env`, `ctx` | the environment of a stack, its selections, compose projects and failures |
| `bootstrap` | which steps run, which are skipped, and which paths are linked |
| `compose`, `run`, `health` | overrides, container states, recorded processes and waiting |
| `worktrees`, `repo` | checkouts, and what is reclaimed once they are gone |
| `discover`, `init`, `doctor` | facts of a repository, the manifests they imply, and drift |
| `dryrun`, `progress`, `update`, `cli` | what is shown, and what each command does |
| `laws` | what holds of the whole, over every stack |

## What is trusted

The library calls `serde_json`, `serde_yaml`, `toml` and `sha2`, and two functions of the standard
library on texts and characters. Each call stands in one small function whose contract names its
result, and so does taking over the document that a parser has read. Those contracts are believed;
everything else is proved.

# UniDeps

UniDeps builds the C and C++ dependencies of a CMake project from a `unideps.toml` manifest. Every
package is fetched, patched, built and installed under an identity that covers everything that can
change the result, so that what was built once is used again wherever it fits.

The library under `src/` holds all rules and decisions and is verified with Verus. It touches
neither files nor processes: where outside work and decisions alternate, a function maps a stage and
an event to the next stage and an action. The program under `app/` performs the actions.

Paths are Unix paths: their components are parted by `/` alone, and drives have no meaning.

| Modules | Subject |
| --- | --- |
| `text`, `table`, `path` | texts, ordered tables, paths |
| `error`, `target`, `compiler`, `manifest`, `recipe` | what manifests, recipes and the command line say |
| `handle`, `lua`, `engine` | recipes written in Lua |
| `node`, `digraph`, `graph`, `condition`, `link`, `strategy` | packages, their graph and the rules for them |
| `hash`, `identity` | identities of sources and builds, and what they tell apart |
| `git`, `checkout`, `patch`, `source` | getting sources |
| `cmake`, `pdb`, `inputs` | running CMake |
| `storage`, `packager`, `resolution`, `install`, `package`, `nested` | building and remembering packages |
| `util`, `project`, `plan`, `context` | settling what a run does |

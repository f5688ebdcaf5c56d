# windplume-deploy

A deployment panel for Docker Compose projects on a trusted network, with its rules proved in
Verus. The panel reads the projects, services and images off the Compose files, lists the tags of
each image, deploys a tag as an immutable digest, checks that the containers come up healthy on
the verified image, undoes what fails, and can update itself from signed releases.

## Layout

`src/` is the library. It decides, and never acts: what the outside world answers comes in as an
argument, and what has to be done there goes out as a value.

| module | what it holds |
| --- | --- |
| `config` | the configuration, its checks, and how a service is read off its image name |
| `compose` | the Docker Compose commands, and what their output means |
| `deployment`, `deployment_laws` | operations on services as a step machine, recovery after a restart, admission |
| `storage`, `storage_laws` | the tables, and the changes that each operation makes to them |
| `registry`, `github` | how tags are asked for, cached, filtered and ordered |
| `state` | when the containers of a project are looked at |
| `system` | disk, memory, Docker space, and which images may be removed |
| `update`, `update_run` | releases, their checksums and archives, and how an update proceeds |
| `web`, `error` | what the pages show, which requests are refused, and how errors are answered |
| `text`, `ordered`, `table`, `paths`, `duplicate` | texts, orders, keyed rows, paths and copies |
| `outside` | the calls into other crates, with what is relied on of each |

Proof functions whose names begin with `law_` state what holds across operations.

`app/` is the program around the library: configuration file, processes, SQLite, HTTP in both
directions, and the page. `tests/` runs the library, with the other crates linked.

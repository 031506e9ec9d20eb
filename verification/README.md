# rpcrouter

The core of a routing gateway for EVM JSON-RPC, written in Verus. It knows every chain of a public chain
list, takes chains into memory when they are asked for, judges the health of their upstream endpoints,
and decides which endpoint to try next. Around that it keeps settings that are changed at run time,
the state that survives a restart, the measurements that are published, and the rules of the control
and public interfaces.

* `src/` is the library. All of it is verified; what it calls of other crates stands behind small
  functions whose contracts say what is taken for granted.
* `tests/` runs the library on concrete values.
* `app/` is the shell around it: files, environment, HTTP, Redis, Prometheus and the clock.

## The modules

| Modules | What they hold |
|---|---|
| `config`, `config_env`, `config_toml` | the configuration, its checks, and where it is read from |
| `chainlist`, `document`, `loader` | the chain catalog: reading it, writing it, keeping it up to date |
| `health`, `endpoint`, `selection` | one endpoint, how it cools and recovers, and which one goes first |
| `chain`, `registry`, `registry_model`, `registry_laws` | chains in memory, what every operation makes of them, and what holds across operations |
| `autoenable`, `promotion` | choosing chains automatically |
| `state`, `store`, `redis_plan`, `keys` | what is stored, where, and under which keys |
| `metrics`, `metric_table` | what is counted, and what it is called |
| `admin`, `admin_list`, `admin_rows`, `site` | the control and public interfaces |
| `json`, `url`, `table`, `sorted`, `order`, `text`, `copying` | documents, URLs, tables, orders and texts |

Contracts speak of views: a registry is a `RegistryView`, a chain a `ChainView`, an endpoint an
`EndpointView`. An operation's contract names the view it leads to, and the laws are proved of those
views.

# iran_route

The verified core of a split-tunnel engine for Windows. While a full-tunnel VPN is up, the engine
routes domestic subnets through the physical adapter and sends domestic domains to domestic name
servers.

* `src/` is the library. Its functions take and return plain values, and Verus proves that each does
  what its `ensures` says. The functions whose names start with `law_` state what holds of several
  functions together.
* `app/` is the program around it: it calls Windows, reads and writes files, and runs `curl`. It reads
  the subnet database from `iran_cidrs.txt` next to the executable, one CIDR block a line.
* `tests/` runs the library on concrete values.

| module | what it decides |
| --- | --- |
| `text`, `decimal`, `utf8`, `utf16`, `ipv4` | text, numerals, encodings and dotted addresses |
| `cidr` | the subnet database |
| `order` | stable ordering by a key |
| `adapter`, `search` | the physical adapter, and how long it is looked for |
| `route` | routes to write, to remove and to look up |
| `nrpt` | the name resolution policy in the registry |
| `connectivity` | the connectivity test |
| `log`, `messages` | what is logged and printed |
| `enable`, `cli` | the course of `enable`, and the command line |

The rule that `nrpt` writes names four servers, the ones of `DOMESTIC_DNS_SERVERS`. `status` shows the
servers of the first such rule that the registry holds, which an older rule may name differently.

# p9fuse

Mounts a remote 9p2000.L file system, as an unprivileged FUSE file system or through the kernel's own
9p client, over TCP, a Unix socket or a websocket.

The library under `src/` does no I/O. It holds the wire format, the tables of the file system and
every decision, as functions from state and event to next state and action, and Verus proves each of
them against its contract. The code under `app/` owns the sockets, the FUSE session and the clock: it
performs the actions and hands the events back. `app/lib.rs` offers it as a library (`mount`, the
transports, the client), `app/main.rs` is the program.

| Module | What it holds |
|---|---|
| `ninep` | numbers, strings, qids, attributes and directory entries on the wire |
| `frame` | messages on the wire, and cutting them out of a stream |
| `calls` | requests, and decoding the answers to them |
| `client` | tags, fids, the handshake, and routing responses to requests |
| `attrs` | from 9p attributes to the kernel's, and from changes to a Tsetattr |
| `tuning` | the knobs, and what is asked of the kernel |
| `step` | the steps by which a kernel request is served |
| `fuse9p` | inodes, open handles, and how each kernel request is served |
| `readdirplus` | directory reads that fetch attributes |
| `writeback` | cutting writes into messages, and deferred writes |
| `bookkeeping` | what holds of the tables whatever happens: which fids are held and dropped |
| `invalidate` | dropping changed paths from the kernel's caches |
| `mount9p` | scanning a byte stream for frame heads, stalls, and the kernel-client bridge |
| `transport` | server URLs, the websocket handshake request, retries |
| `session` | how a mounted session ends |
| `text` | decimal numbers, white space, paths |

Public proof functions state the laws that relate several functions, for example that the cutting of
the stream into chunks makes no difference (`frame`, `client`, `mount9p`), that what was written reads
back (`ninep`, `calls`), that no fid is used after it was dropped and that no read or write exceeds
what the server agreed to (`bookkeeping`), and that a write's data reaches the server once and in order
(`writeback`). Fids are not lost either, with one exception: where a file is made whose inode number
the kernel still holds for another, the fid of that one is replaced and not dropped.

What is believed without proof is marked in the sources: `String::push`, `char::is_whitespace`,
`String::from_utf8_lossy`, the `Debug` form of a string, and three steps on an HTTP request: making it
from a URL, getting at its headers, and setting one.

# my_eip_project

EtherNet/IP over UDP: the adapter side (Forward Open / Forward Close
handling, cyclic multicast of assemblies, connection timeouts, explicit
messages) and the client side for a Balluff BNI008M I/O module (assembly
requests, output packing, input decoding).

- `src/` — the Verus-verified library. Times are milliseconds handed in by
  the caller; buffers are `bytes::BytesMut` and `Vec<u8>`.
  - `wire` — little-endian encoding, and the trusted contracts of the
    `bytes` and `byteorder` calls.
  - `forward_open`, `forward_close`, `explicit` — request parsing and
    responses.
  - `assembly` — the assembly table and its laws; `assembly_laws` — laws
    over runs of operations (schedules, activity, successive cleanups).
  - `server` — what each packet, timeout check and multicast tick does.
  - `balluff::bni008m` — requests and data of the BNI008M.
- `app/` — the program: sockets, tokio tasks, the clock, the EtherNet/IP
  client of `rseip`.
- `tests/` — tests of the library on concrete values.

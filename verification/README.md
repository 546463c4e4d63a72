# netom

The verified core of a BGP and BMP route collector and of its command line.

* `src/` is the library. Everything in it is verified by Verus: each function
  states what it returns, and the laws that relate functions stand beside them
  as proof functions.
  * `best_path` ranks the routes of a prefix by RFC 4271 and tells why.
  * `flowspec` keeps sets of traffic filters in one octet string.
  * `clickhouse` turns observations into rows, frames and segments, and decides
    what the writer and the uploader of the spool do next.
  * `bgp_in` has the status of sessions, the list of neighbors and the dialers;
    `bmp_in` the connections to monitored routers; `peer_stats` the counts of
    each peer; `rib_metrics` and `metrics` what is measured.
  * `roto_runtime` has what filter scripts are given and what they hand out,
    `daemon_info` what the daemon tells about itself.
  * `cli` has the command line: words and filters, HTTP framing, tables and
    what is shown for every command.
  * `addr`, `ingress`, `json`, `keyed`, `order`, `representation`, `sorting`,
    `text`, `toml_doc` and `wire` are what these are built from.
* `app/` is the program around it: sockets, files, the terminal, the database.
* `tests/` runs the library on examples.

What is believed of other crates without proof stands in the functions marked
`external_body`; each says which function it calls and what is claimed of it.

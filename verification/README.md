# chnroutes

Keeps the routes to mainland China networks in the system route table, and
plans per-domain routes from DNS answers.

The library under `src/` is written in Verus: its functions carry contracts
that the verifier proves.

- `net`: IP addresses and networks as integers; parsing and printing go
  through `std` and `ipnet`.
- `text`: character-level helpers that the parsers are specified with.
- `source`: the APNIC and chnroutes2 list formats, and the BGP/ASN data used
  to classify networks.
- `route_op`, `restore`, `update`, `state`, `cache`, `service`: the decisions
  taken between route table operations: gateway choice, route keys, tallies,
  restore verdicts and retries, the refresh diff, the service status.
- `domain`: domain routing: the rule policy, resolution state with
  generations, route intents, and reconciliation of desired against applied
  intents.

`app/` is the command-line program: argument handling, downloads, files, the
route table through `net_route`, the Windows service, and the asynchronous
loops around the library's steps.

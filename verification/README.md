# bagflow

Offline validation flows over recorded robot data (rosbag2, MCAP) on dora.

A flow is a YAML file that names a bag, a report, and nodes that subscribe to
topics of the bag or to outputs of each other. Bagflow checks it before it runs,
generates the dataflow, and runs it. The dataflow has two nodes more than the
flow: a source, which reads the bag, and a report, which gathers the results of
all nodes and tells them when everything has been read.

    bagflow check flow.yml
    bagflow run flow.yml
    bagflow run --no-attach flow.yml --bag /data/run --report /reports/run.json

## Layout

- `src/` is the library, verified with Verus: the checks and the plan of a flow
  (`check`, `plan`, `preflight`, with the proofs about them in `laws`), the
  source (`source`), decoding (`decode`, `gpu`, `batch`), messages (`params`),
  and running a plan (`run`). `text`, `text_map`, `number`, `paths` and `json`
  are what these are built on.
- `app/` holds the programs around it. One executable serves as `bagflow`,
  `bagflow-source`, `bagflow-decode` and `bagflow-decode-cuda`, by the name that
  it is called by.
- `tests/` runs the library.

## What is trusted

The proofs rest on what `src/json.rs` states of `serde_json` and what
`src/decode.rs` states of `fast_image_resize`. Each such function says in its
comment what it takes for granted.

Paths are text, with `/` between components.

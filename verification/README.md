# momo_core

The core of the MOMO runtime, written in Verus: the logic that decides what
goes to a model and what comes back is proved against its contracts.

- `src/` — the verified library.
  - `context.rs`, `capability.rs`, `bpe.rs`: prompt budgeting with exact or
    conservative token counts, and the capability profiles that set them.
  - `governance.rs`: which request overrides apply, within which limits.
  - `gateway.rs`: chat message validation, server-sent event decoding and
    the accumulation of streamed deltas into a completion.
  - `embedding.rs`: embedding profiles, input batches and response checks,
    and the plan, checks and order of a semantic-graph index rebuild.
  - `memory.rs`: retrieval scopes and the weighted split of a token budget.
  - `lsb.rs`, `lsb_files.rs`, `image_codec.rs`, `checksum.rs`: payloads
    carried in the low bits of lossless images.
  - `character_compat.rs`, `charx.rs`, `card_export.rs`, `json.rs`:
    external character cards (JSON, PNG, CHARX) in and out.
  - `portable.rs`, `local_data.rs`, `config.rs`, `crypto.rs`: container
    plans, character checks and configuration documents.
  - `orchestration.rs`, `control.rs`, `prompt_spaces.rs`, `api.rs`: errors,
    keys and checks of the response pipeline and control plane, and the
    decisions of a response run and of a maintenance run (replay,
    conversation and character, capability fallback, batch plan, repair
    round).
  - `coordination.rs`: the table of response operations in flight, with
    cancellation.
  - `bounded.rs`: reply bodies read under a byte limit.
  - `text.rs`, `paths.rs`, `ids.rs`, `table.rs`: text, path, UUID and
    sorted-table helpers the rest is proved with.
- `app/` — file and network I/O around the library (chat and embedding
  calls, capability discovery, card and carrier files), the serde forms of
  its values, and the floating-point steps it leaves to its caller.
- `tests/` — tests run against the compiled library.

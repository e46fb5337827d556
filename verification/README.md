# genai_bench_rs

A benchmark for LLM serving endpoints (`gbrs`), split into a library whose logic is
specified and proved with Verus, and a thin program around it.

## Layout

- `src/` — the verified library:
  - `text.rs`: character-level helpers (Unicode trimming, unsigned decimal parsing with
    the rules of `u64::from_str`, decimal formatting) with their specifications and lemmas.
  - `cli.rs`: duration strings (`60s`, `5m`, `1h`), the plot options, the default output
    directory.
  - `scenario.rs`: `D(N,M)` scenarios: parsing, names, and the proof that a scenario's name
    reads back as the same scenario.
  - `json.rs`: a JSON document as plain values, with member and element lookup, and the
    call into `serde_json` that parses JSON text into it.
  - `client.rs`: SSE line parsing (framing, the chunk's JSON: first choice's delta, the
    usage report read as serde's derived `Deserialize` reads it), chunk content selection,
    and the state machine of a streamed response (line buffer, first-token time, usage,
    final record).
  - `metrics.rs`: the record of one request.
  - `runner.rs`: error breakdown by status code, steady-state selection (requests initiated
    in the first or last 5 seconds of a level are left out; the level's server metrics are
    taken over the window of the kept requests), when to stop spawning, and the run's report
    lines.
  - `output.rs`: CSV headers, the error table rows, terminal redraw codes.
  - `plot.rs`: plot types and the direction-aware choice of percentile.
  - `tokenizer.rs`: corpus lines and prompt generation to a token target: a pass over the
    shuffled lines as a state machine over their token counts, with the `tokenizers` and
    `rand` crates called through specified wrappers.
  - `command.rs`: highest concurrency level and the open-file limit warning.
- `tests/` — tests of the library.
- `app/` — the `gbrs` program: command line, HTTP streaming, async scheduling, floating-point
  metrics, CSV/JSON output, tables and plots.

The prompt corpus is read at run time from `$GBRS_CORPUS` (default `corpus.txt`).

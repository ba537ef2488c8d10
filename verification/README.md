# obdentic

Read-only vehicle diagnostics over ELM327-compatible adapters: a closed
vocabulary of diagnostic reads, normalization of adapter answers that keeps
every responder and every issue, and deterministic decoding of OBD-II and UDS
evidence. The library is written in Verus; each public function states what
it returns in its contract, and the properties that span several calls are
stated and proved as `law_*` proof functions.

## Layout

- `src/` — the verified library.
  - `text`, `elm_text`, `order`: character and byte helpers, the decimal,
    escape and quoting text the messages use, and the orders used for sorting.
  - `signals`, `capability`, `capture`, `jobs`: the closed signal catalog, the
    adapter's request budget, capture profiles and the capture plan.
  - `elm`, `elm_read`, `elm_uds`, `elm_mode03`, `elm_mode09`: normalization of
    ELM327 answers to Mode 01, UDS ReadDataByIdentifier, Mode 03 and Mode 09
    requests, with per-responder ISO-TP reassembly, and the retry decisions of
    a read.
  - `dtc`, `identity`, `ea189`, `compound_fact`: decoding of stored DTCs,
    VINs, the EA189 DPF probe and compound facts.
  - `topology`, `functional_discovery`, `cache_validation`: responders,
    request targets, functional support discovery and cache validation.
  - `ecu_identification_discovery`: how one bounded ECU identification
    read is classified from the expected responder's answers.
  - `diagnostic_job`, `capture_events`, `audit`, `ble`, `adapter`: diagnostic
    job plans and results, capture events and their validation, the bounded
    audit, the session state of a BLE adapter and adapter line framing.
  - `json`, `jsonl_capture`, `capture_report`, `capture_replay`: the JSON
    record reader, the JSONL capture format both ways (header, numbered
    records, one final stop; what is written reads back), the offline
    inspection and transport-capability figures of a capture, and the
    transport-free replay of its successful reads.
- `tests/` — tests of the library on concrete values.
- `app/` — the edges: reading and writing a capture file, parsing a profile's
  YAML, the report texts with their rates, percentages and numeric ranges as
  doubles, comparing a recorded number with a re-decoded double, a scalar
  fact from a double, and the value of a DPF reading as a double.

# vector_db_benchmark

A benchmark for vector databases, with its logic verified by Verus.

`src/` is the library. Every function in it has a contract, and Verus proves the contracts:

- `experiment` – which runs are made and in what order (`plan`, `agenda`, `run`), the check of a reused
  corpus (`reuse`), the calibration of a search parameter (`calibration`) and the documents that are
  written (`results`)
- `summary`, `report`, `tables`, `plot` – what is made of the results: the best of each precision, curves
  over the number of clients, warnings, tables and a chart
- `scaling` – what the warnings of clients that do not pay off say of the searches, in whichever order
- `metrics`, `ground_truth` – the quality of the results of a query, and what the ground truth allows
- `query_filter` – the conditions of queries, which are resolved to a filter or refused, never dropped
- `weaviate` – schema, filters, requests and replies of the Weaviate engine
- `msmarco` – sampling, ranking and cross-checking of the MS MARCO passages
- `readers` – the files of a dataset, as bytes or as lines
- `start_gate` – the start of workers that begin together
- `json`, `json_parse`, `json_text`, `text`, `sorted_texts`, `bytes`, `float_bits` – the values that all of them
  speak of, and JSON out of text and into it

Floating-point numbers are held as their bit patterns, and texts that show them are handed in. A few calls
of other crates and of the standard library are taken at their word; each stands in a function of its own
with `external_body`, whose comment says what is claimed of the call.

`app/` is the program around the library: arguments, files, HTTP, threads and floating point. `tests/` runs
the library on concrete values.

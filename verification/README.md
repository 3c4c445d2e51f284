# sudachi_ffi

The verified core of a C-callable front end to the Sudachi Japanese
morphological analyzer.

`src/` (verified with Verus):

- `config.rs` – the analyzer settings, decoded from the numeric codes of the
  C interface and a JSON exclusion list; sentence split mode names, and the
  kind of line analysis each split mode asks for.
- `text.rs` – splitting a text into its non-empty lines; string helpers.
- `raw_input.rs` – the binary input format (length-prefixed UTF-8 texts), and
  the proof that reading what was written gives the texts back.
- `json.rs` – how strings are written as JSON strings; reading the JSON input.
- `output.rs` – writing the morphemes of a sentence as JSON or plain text.
- `framing.rs`, `analysis.rs` – the arrays and separators around each line's
  and each text's results; rendering all texts into one buffer, or text by
  text and joined.
- `laws.rs` – one-buffer and text-by-text rendering agree; plain-text output of
  batches concatenates; for every input, JSON output is an array holding one
  array per text, with one value per kept morpheme (or per sentence when only
  splitting) and commas only between values; rendering rests on the analyses
  and the three output settings alone; blank lines and the style of line ends
  never change a text's lines.

`app/` holds the C interface: loading the dictionary, running the tokenizer on
each line, the thread pool, and the buffers handed across the boundary.

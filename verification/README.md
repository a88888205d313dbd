# ai_limits

Usage limits of the Codex and Gemini command-line tools, gathered into one
report, filtered by provider and model, and written for people or as JSON.

- `src/` is the verified library: the JSON model of the services' replies,
  the normalization of rate limits and quota buckets, ordering, filtering,
  the text report, the request bodies and reply checks of both services,
  the exchange with the Codex app server as a step from state and message
  to next state and action,
  secret redaction for error messages, and the choice of commands to run.
- `app/` is the program around it: command-line parsing, environment, files,
  processes, HTTP, the clock, and serde conversions.
- `tests/` runs the library on concrete values.

Percentages are held as `i128` integers in units of 1/100000 percent, the
five decimals the report keeps, up to 10^31 percent either way; numbers in
the services' replies are read as exact decimals (`src/decimal.rs`).

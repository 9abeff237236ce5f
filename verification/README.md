# tool_calling_json

Finding JSON tool calls in the output of a language model, verified with Verus.

- `find_tool_call_end_position_json` (src/end_position.rs): where the tool-call
  region of a streamed chunk ends, for the `hermes`/`nemotron_deci` (start/end
  token blocks, consecutive blocks merged), `mistral`/`phi4` (last `]`) and
  `internlm` (action wrappers whose JSON body is read with `serde_json`)
  formats. The result is a byte position of the chunk.
- `detect_tool_call_start_json` (src/detect.rs): whether a chunk starts, or may
  be starting, a tool call.
- `try_tool_call_parse_json` (src/parse.rs, src/basic.rs, src/deepseek.rs):
  the tool calls of a whole message and the normal text before them, for the
  basic JSON format and the DeepSeek V3 / V3.1 formats.

Every scanner works on the `char` sequence of its input; src/text.rs holds the
text model (whitespace, search, trimming, UTF-8 byte lengths). Each public
function states its result exactly, over the spec functions next to it;
the one thing left open is which random UUID a call id carries (its layout
is stated).
src/laws.rs proves properties that hold of every input. src/json_value.rs holds
the trusted calls into `serde_json`, whose results the contracts name.

app/ adds the serde form of the parser selection and an `anyhow` entry point.

# json_tool_parser

A streaming parser for JSON tool calls between text markers, verified with Verus. A format is a
`JsonToolCallConfig`: its markers, the whitespace next to them, the delimiter between calls, the
keys of the name and of the arguments, and whether a Markdown fence may stand around the JSON.

- `parser`: `JsonToolCallParser`, which takes input in pieces and hands out text and parts of calls.
- `state`: the mathematical model that the parser's contracts speak of.
- `event`: the events of a stream and their grammar, over `lex`, `sequence`, `string`, `object`,
  `text` and `bytes`.
- `output`, `error`: what is handed out, and why a parser stops.
- `json`: the call into `serde_json` that checks fenced arguments.
- `laws`: what holds of the parser as a whole, such as that chunk boundaries do not matter and that
  tool calls that are written down are read back.

Buffers are vectors of characters, and positions in them count characters. The lengths of events
count the bytes of the UTF-8 encoding.

# burp_tools

Verified request and response processing for a Burp Suite tool server,
written in Verus.

- `src/` is the library. Every function in it is verified: CSS selection
  over HTML (`html`, `css*`), JSONPath parsing and selection
  (`json_grammar`, `json_path`, `json_select`), payload rendering and
  truncation (`payload`, `http_text`), regex matches in responses
  (`response_matches`), header and line diffs (`diff`), raw-request
  conversion and export (`request_text`), the decisions of the security
  workflows (`workflows`, `probes`, `jwt`, `graphql`), tool outputs and
  dispatch (`outputs`, `dispatch`, `editor`, `tools`, `decoder`,
  `requests`), the answers to failed calls (`client_errors`), the hints
  and error answers drawn from a tool's JSON input schema (`tool_schema`),
  site-graph synchronisation (`sync`) and the graph daemon's protocol
  (`daemon`). Calls into `base64`, `url`, `html-escape`, `hmac`/`sha2` and
  `regex` stand behind small trusted wrappers whose contracts name or
  state what those crates return.
- `tests/` exercises the library on concrete values.
- `app/` is ordinary Rust around it: JSON read with `serde_json`, JSONPath
  filters and response similarity (both use floating point), the JSON
  reading and writing of the JWT audit, and serde forms of the library's
  records.
- Not included: decoding site-graph tasks from Cap'n Proto (neither the
  `capnp` crate nor the reader generated from its schema is available
  here), and the tool server, graph backend and HTTP client that run the
  workflows, whose runtime and network crates are not available either.

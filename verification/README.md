# bourbaki

The verified core of Bourbaki, a desktop tutor for reading mathematics
textbooks: a PDF is turned into LaTeX page by page, selections on a page are
located in that LaTeX, and questions go to a language model together with the
retrieved pages, concepts and memories of earlier sessions.

## Layout

- `src/` — the library, verified with Verus.
  - `text.rs`: the character model of strings (whitespace, trimming, search,
    UTF-8 byte offsets, line and word splitting, decimal formatting).
  - `selection_map.rs`: where a selection of rendered text lies in a page's
    LaTeX, and the excerpt around it (context counted in characters).
  - `chatgpt_session.rs`, `pkce.rs`: the sign-in (authorization URL, PKCE
    values, the callback request, the token store) and the conversation
    request and its event-stream reply.
  - `ingest.rs`: the ingestion run as a state machine from outcomes to actions.
  - `turn.rs`: one question of a tutoring session as a state machine: search
    only for free questions, compression of long histories, review rounds only
    with thinking on, and the stored question and reply.
  - `session.rs`: the pieces of a tutoring session (question check, context
    assembly, compression plan, transcript, read-ahead pages).
  - `json.rs`: JSON values and the fields read from the replies.
  - `memory.rs`, `embed_sidecar.rs`, `openai.rs`, `db.rs`: ranks by order,
    embedding blobs, the embedder's reply, model request texts, LaTeX fences,
    concept rows and page previews.
- `tests/` — tests of the library on concrete values.
- `app/` — the application around it: files, SQLite, HTTP, helper processes,
  floating-point scoring, and the commands the interface invokes.

Calls into outside crates (`base64`, `sha2`, `uuid`, `serde_json`) stand behind
small trusted wrappers that only make the call and convert its result. Their
contracts name what the call returns (an encoding, a digest, a parsed JSON value)
and state only what the crates' sources show of it; every field read from a
parsed JSON value is looked up by verified code in `json.rs`.

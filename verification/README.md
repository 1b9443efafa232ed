# Sleepers Researcher core

The verified core of a local-first research agent: a ReAct loop over two LLM
providers (Gemini and Groq), a set of research and development tools, and a
long-term memory of documents, images and past chats.

Layout:

- `src/` — the library, written in Verus and verified:
  - `text` — character-level string work (searching, trimming, collapsing
    whitespace, byte-length cuts on character boundaries, decimal output);
  - `json` — a plain-value model of JSON documents and the reads made of them;
  - `backends` — provider settings, routing by name, request bodies, reply
    reading and the server-sent-event line buffer;
  - `research` — HTML to text, URL encoding and decoding, DuckDuckGo and
    Tavily result reading, page capping and the archive fallback decisions;
  - `agent` — the system prompt, reply classification and the step machine
    that drives a request;
  - `memory` — file classification, chunking and ingestion bookkeeping;
  - `state` — approval permissions, pending permission requests, status line,
    session previews, context size;
  - `tools` — argument reading and output formatting of every tool, and the
    search phase of deep research.
- `app/` — the command-line program around the library: HTTP, SQLite,
  embeddings, processes, files, PDF rendering and the terminal.
- `tests/` — tests of the library's public functions.

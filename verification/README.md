# ocode

A terminal coding assistant: a chat with a local (Ollama) or hosted (Nvidia
NIM) model that plans tool calls with a small model, runs them, and lets the
main model ask for more tools while it answers.

The library under `src/` holds the assistant's logic, proved with Verus:

- `text` — character-level text operations (`find`, `trim`, `lines`, `join`,
  UTF-8 byte lengths) with exact specifications;
- `input` — the multi-line input editor; editing needs the cursor between
  two characters, every move keeps it there, and laws such as "backspace
  undoes a typed character" are proved;
- `agent`, `args` — the XML tool-call protocol, tool summaries, and what
  each tool call asks for;
- `planner` — the planner prompt, the conversation summary, reading the
  planner's JSON array out of its reply;
- `pipeline` — an agent run as a state machine, at most six reactive rounds;
- `state` — the interface state and its reactions to keys, slash commands,
  agent events and the results of outside work;
- `ai`, `session`, `config`, `tools`, `ui`, `app`, `clock` — messages and
  stream lines, stored sessions, settings and the backend each model call
  goes to, tool reports, screen text.

`app/` is the program around it: the terminal, files, processes, HTTP and
drawing. It performs the work the library's decisions ask for.

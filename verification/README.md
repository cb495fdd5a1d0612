# mini-swe-agent

A minimal software-engineering agent with a terminal front end. The agent sends
the conversation to an OpenAI chat model, runs the shell commands that the reply
writes in ```` ```bash ```` blocks, reports their output back, and forgets the
conversation when the reply says `[[RESET]]` (or `RESET_AGENT_STATE`).

Layout:

- `src/` — the verified library:
  - `text.rs`: Unicode white space, trimming, pattern search, decimal rendering;
  - `model.rs`: messages, actions, reading actions out of a reply, the model
    handle and the chat request it builds;
  - `parse_laws.rs`: laws of reading replies (prose before a reply changes
    nothing; commands in `bash` blocks come back exactly, in order);
  - `env.rs`: command results and the working directory;
  - `agent.rs`: the agent's turn-taking as a state machine (`Agent::step`) and
    its laws;
  - `tui.rs`: the transcript and key handling of the front end.
- `app/` — the program: environment variables, the HTTP client, the shell, the
  terminal, and the loop that performs what `Agent::step` asks for.
- `tests/` — tests of the library.

Environment: `OPENAI_API_KEY` (required to reach the model), `OPENAI_BASEURL`
(optional endpoint), `MSWEA_MODEL_NAME` (defaults to `gpt-4o`).

Keys: Enter sends the input as a task (only while no task runs), Up/Down scroll
the transcript one line, Ctrl-F switches following the end of the transcript, Esc quits.

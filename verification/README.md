# teshi

A browser explorer for Gherkin feature files, with its logic verified by Verus.

- `src/` is the verified library:
  - `text` — the text operations everything else is stated over (lines,
    words, trimming, joining), with the few calls into `std` and
    `unicode-width` behind trusted wrappers;
  - `gherkin` — the feature-file parser, specified line by line;
  - `diff` — line diffs of two texts built on a longest common subsequence
    of their lines, with a deleted-then-added pair shown as one modified line;
  - `step_index` — where each normalised step body occurs in a project;
  - `storage` — the keys under which features and settings are stored, and
    what each storage request does to a key-value store;
  - `chat`, `llm` — the assistant's canned replies and the shape of
    chat-completion requests and replies;
  - `runner`, `status` — messages of the local test Runner and the run
    status recorded per scenario;
  - `explorer` — what a key press, a mouse click, a Runner event or a
    simulated run does to the explorer's state;
  - `ui`, `panels` — what each part of the screen shows: highlighted
    Gherkin lines, the Explore columns and their clickable regions, footers,
    the help overlay, aligned example tables, the chat layout;
  - `numfmt`, `site` — decimal numbers and the page's links.
- `tests/` runs the library on concrete inputs.
- `app/` is the program around it: browser storage, the Runner's WebSocket,
  HTTP requests to the chat API, and drawing the screen with ratatui into the
  page.

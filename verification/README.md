# catmd

A `cat`-like printer that renders Markdown for the terminal.

- `src/` is the verified library:
  - `paths.rs` decides which inputs are Markdown and whether to render them;
  - `events.rs` reads a document into `MdEvent`s with `pulldown-cmark`;
  - `render.rs` is the renderer, a state machine over the events, with its
    specification (`step`, `emit`, `rendered`);
  - `highlight.rs` highlights fenced code blocks with `syntect`;
  - `style.rs` holds inline ANSI styles and list markers, `text.rs` string
    helpers;
  - `markdown.rs` puts parsing, highlighting and rendering together;
  - `laws.rs` states and proves properties of the library as a whole.
- `app/main.rs` is the command line program: arguments, files, stdin and
  stdout.
- `tests/` exercises the library on concrete inputs.

# mdless

A terminal markdown viewer. The library (`src/`, with the specifications and proofs) holds:

- `events`: markdown events read by pulldown-cmark (through a trusted wrapper), as plain values;
- `markdown`: the line builder that turns events into styled lines, with its specification
  (`step`, `render_event_lines`) and the law that code blocks are drawn 79 characters wide;
- `code_block`: syntax highlighting through syntect (trusted wrappers) and the boxing,
  truncation and padding of code lines;
- `table`: table rendering and the law that all lines of a table are equally wide;
- `app`: the viewer state — scrolling, case-insensitive search, key handling — with its
  invariant and the laws on moving between search results;
- `theme`: color themes;
- `style`: colors, styles, spans and lines.

`app/` is the program around it: command line, reading and watching the file, the terminal
loop and drawing with ratatui.

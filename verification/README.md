# mdpreviewer

A live-reloading browser preview for Markdown, with mermaid diagrams, that any
editor that can run a shell command can use.

```sh
mdpreviewer [--line N] [--no-open] path/to/file.md   # open a preview (or reuse one)
mdpreviewer --sync [--line N] path/to/file.md        # update a running preview only
mdpreviewer --restart [--line N] path/to/file.md     # stop any running server, then open
mdpreviewer --quit                                   # stop the running server
```

## Layout

- `src/` is the library: the program's decisions, verified with Verus.
  - `text`, `decimal`, `percent`, `path`: text, numbers, percent-encoding, and
    Unix paths as byte strings.
  - `control`: the control socket's line protocol, where the socket lives, and
    what its failures mean. `call` is one connection on it.
  - `cli`: the command line. `invocation` is one run of the program, from its
    arguments to its exit or to a server.
  - `render`: Markdown to HTML, with comrak.
  - `server`: routes, links, images and headers. `exchange` is one HTTP request,
    from its arrival to its answer. `session` is the document being previewed.
  - `event`, `stream`: what tabs hear about, and one tab's event stream.
  - `watch`, `idle`: from file-system events to reloads, and when the server shuts
    itself down.
- `app/` is the program around it: arguments, sockets, files, threads, and the
  browser. It performs what the library asks for and hands back what came of it.
  The browser assets are read from `assets/` beside the executable. On a system
  without Unix sockets the program only opens previews, in the foreground.
- `tests/` runs the library.

`call`, `exchange`, `invocation`, `stream` and `watch` are step functions: from a
state and what came of the last action to the next state and the next action. The
public proof functions beside them state what holds in every course of events, for
example that `--sync` never prints anything, or that only images are served.

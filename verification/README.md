# localhost

A small HTTP/1.1 server whose request handling is a verified library.

- `src/` — the library, checked by Verus:
  - `text.rs`, `number.rs`: character sequences and decimal numbers, each
    operation specified against a mathematical definition;
  - `config.rs`: the virtual-server configuration, port cleaning and the
    list of ports to listen on, routes;
  - `request.rs`: request-line and raw-request parsing, headers;
  - `find.rs`: which virtual server answers a request (`Host` header);
  - `reading.rs`: when the header section is complete and how the body is
    read;
  - `cookie.rs`: the session cookies a server hands out and checks;
  - `response.rs`, `handlers.rs`, `errors.rs`: what a request is answered
    with, and the bytes written for a response;
  - `files.rs`: file names and the files a configuration needs;
  - `bridge.rs`: the calls into `http`, `mime_guess`, `sanitise-file-name`,
    `uuid` and std, each with the contract the library relies on.
- `app/main.rs` — the program: reads `settings`, checks the files on disk,
  listens on the ports with `async-std`, runs the CGI script, and hands every
  decision to the library.
- `tests/` — tests of the library on concrete values.

Run the server from a folder holding the executable, `settings`, `static/`,
`cgi/` and `uploads/`.

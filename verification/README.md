# rust_datastar_template

The request, credential and message logic of a small chat and account web
application built on axum, datastar, NATS JetStream and Tera, written in Verus
with its contracts proved.

- `src/` is the verified library:
  - `repo::auth`: the user-name and password rules, credentials, and the
    outcomes of sign-up, sign-in and session lookups, and the steps of
    sign-up and log-in between the database calls;
  - `repo::streams`: which messages to fetch from the stream and how a
    delivered message becomes one the page shows;
  - `web`: trailing-slash and log-in redirects, the answers to the account
    forms, translation files and the watcher hook of the layout;
  - `resources`: what a chat post publishes, which responses are compressed,
    and, in `resources::dev`, which assets development builds produce and what
    a changed file asks of the browser;
  - `text`: character classes and the string operations the rest is built on.
- `app/` is the server around it: routing, templates, server-sent events, the
  message bus and the file watcher.
- `tests/` runs the library on concrete inputs.

The account server (its pages, router, database middleware and
authenticator) is not part of `app/`: it runs on a SurrealDB connection pool
(`surrealdb` with the `bb8_surrealdb_any` adapter) and renders its pages with
`tera_template_macro`, none of which is a dependency of this crate. Its
decisions are in the library, in `repo::auth` and `web`; `app/web.rs` keeps
the middleware and template helpers that such a router mounts, and `main`
serves the chat pages.

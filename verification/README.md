# newsletter

A newsletter service whose request handling is verified with Verus.

- `src/` is the verified library:
  - `routes::newsletters` reads HTTP Basic credentials from a request's
    header fields, checks a password against an Argon2 hash in the PHC string
    format, keeps the confirmed subscribers with valid addresses, and decides
    every step of publishing an issue as a state machine
    (`publish_newsletter_start`, `publish_newsletter_step`): the server
    performs each action it asks for and reports the outcome back.
  - `routes::subscriptions`, `routes::health_check`,
    `routes::subscriptions_confirm` decide the answers of the other handlers.
  - `codec` and `password` hold the trusted wrappers around the `base64`,
    `argon2` and std calls the library makes.
  - `laws` states what holds over whole runs of a publication and of reading
    credentials, and proves it.
- `app/` is the axum server around the library: routing, extractors, the
  database queries, mail delivery and the loop that drives the publication
  state machine.
- `tests/` runs the library on concrete requests.

# example-monitoring web service

The web layer of an uptime monitor: multi-tenant accounts, monitored
HTTPS sites with configurable OK status codes and retries, and Slack or
Discord notification settings per organisation.

The request logic is a library verified with Verus (`src/`):

- `password`: PBKDF2-HMAC-SHA256 password hashes
  (`pbkdf2_sha256$<iterations>$<hex salt>$<hex digest>`); a password
  always verifies against a hash made from it.
- `session`: HMAC-signed session cookies with a JSON payload and an
  expiry; a signed payload verifies and gives back the payload, and a
  session cookie reads back as its session until it expires. CSRF tokens.
- `http`: cookies, form and query fields, the request context and the
  CSRF check.
- `response`: responses with the security headers on every response and
  CORS headers only for the configured origin; cookie headers.
- `sites`: the monitored-site form (HTTPS-only URLs, status-code lists,
  interval and retry checks).
- `accounts`: user rows, sign-in and registration decisions, notification
  settings.
- `config`: settings and their defaults.
- `json`: JSON values in the library's own form, read and written by
  serde_json.
- `text`, `encoding`, `kv`: text handling, hexadecimal and base64, and
  text-keyed maps.

`app/` holds the axum server, the SQLite database, the MiniJinja templates
and the environment, around the library. `tests/` runs the library.

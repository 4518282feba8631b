# desqta

The network and theme utilities of the DesQTA desktop client for SEQTA
Learn, as a library whose behaviour is stated in contracts and proved with
Verus.

## Layout

- `src/` — the verified library.
  - `text.rs`: trimming, searching and splitting of character sequences.
  - `deeplink.rs`: theme-install links (`desqta://theme/...` and the
    BetterSEQTA web links), and the slot holding the pending install.
  - `json.rs`: JSON values and the skeleton / merge / override operations of
    the request-patch system.
  - `patches.rs`: the request-patch file: registering requests, replaying a
    developer's overrides, recording responses.
  - `request.rs`: what a request to the server carries (session headers,
    cookies, POST bodies) and what to do with each answer (re-authentication,
    reloading the session, retries and their back-off).
  - `fetch.rs`: the course of one request as a state machine that the caller
    drives.
  - `reauth.rs`: logging in again with stored credentials (login, then a
    heartbeat), as a state machine that the caller drives.
  - `feed.rs`: RSS feeds as JSON: the feed text read with `rss`, written
    out and re-read with `xmltree`, then turned into JSON.
  - `endpoints.rs`: the requests of the application's commands, upload
    checks, proxied answers, image answers, the login-window URL.
  - `theme_files.rs`: the user's theme folders.
- `tests/` — tests of the library.
- `app/` — the shell around it: HTTP with `reqwest`, waits with `tokio`,
  files, the saved session, and the serde forms of the library's types. The
  desktop windows and window events of the full application are not part of
  it.

# vidarax_api

The API of a video understanding server: runs and their events, frames that are
ingested and analyzed, realtime reasoning over chunks of video and sound,
inference requests, live sound, uploads, search, policies, webhooks and event
streams, with the security, rate limits and configuration around them.

- `src/` is the library. It decides: it takes plain values (requests, events, the
  outcome of a call) and says what is answered, appended to the log or done next.
  Every function states what it does in its contract, and Verus proves it. Work
  that waits for something outside is a state machine, from state and event to
  the next state and an action. Laws that relate several functions are the public
  proof functions.
- `app/` is the server around it: HTTP, files, the log on disk, the providers.
- `tests/` runs the library with the outside crates linked.

What Verus is asked to believe of outside crates and of the standard library
stands in small functions marked `external_body`, and in a few
`assume_specification` items, each with a comment that says what is claimed.

Floating-point numbers are carried as their bits (`ieee`). Arithmetic on them is
done in `app/`.

# shared

The logic of the Baphomet Babes members' hub, verified with Verus: the
records the hub exchanges with its backend, the rules for gatherings and ride
contacts, the movie-night schedule and its admin stepper, date and time
formatting, and the decisions the browser glue makes.

## Layout

- `src/` — the verified library.
  - `text`, `fmt`: characters, strings, dictionary order and decimal numbers,
    with the spec functions the other contracts are written in.
  - `model`: the records, roles and notification preferences.
  - `contact`: how a ride's free-text contact is presented and the link it
    gets (only `https:`, `http:`, `mailto:` and `tel:`).
  - `gathering`: the gathering rules and the "YYYY-MM-DDTHH:MM" shape.
  - `schedule`, `movie_nights`: event stages, the headline screening, the
    order of the list, pages, the open poll.
  - `rides`: who may edit a ride, when it is over, upcoming and past rides,
    and what the post and edit forms send.
  - `forms`: what each form sends, or the message that stops it.
  - `dates`, `calendar`: date and time labels, and days since 1970 as dates.
  - `labels`: counts, deadlines, badges, names and bio previews.
  - `web`: backend choice, failed requests, session end, notification
    toggles, calendar and maps links, updates, install guides.
- `tests/` — tests on concrete values.
- `app/` — the browser side: HTTP, local storage, the clock, the update
  check. It is not verified; it hands plain values to the library.

## Trusted items

Two calls are believed rather than proved: `String::push`
(`text::push_char`) and `str::to_lowercase` (`web::to_lowercase`, whose
result is named `lowercase`). `encodeURIComponent` is written and proved in
`web::encode_uri_component` against its statement `uri_component`.

Pin coordinates are floating point, so the library's ride and gathering
requests are generic over the coordinate type: it carries them and never
reads them. `app/` instantiates them with `f64`.

# worstbird

The site worstbird.eu puts five random birds from ebird.org up for a downvote
every month. The birds with the most votes are the worstbirds of the month
(several on a tie); in January the worstbirds of the past year's months are up
for the worstbird of the year.

`src/` is the verified library, each function with its contract:

- `scrape`: reading a species page (name, description, photo id) and the
  embedded photo player (its text lines), the photo's size, the player's size.
- `ranking`: the worstbirds of a month or year, and the entries of the year vote.
- `voting`: which years and months may be shown and voted on, the per-address
  vote count, vote cookies, page data and messages.
- `calendar`: next and previous months, month names, the cookie expiry date,
  the wait until the next month.
- `tweets`: the monthly announcement.
- `fetcher`: the monthly job's decisions.
- `text`, `decimal`, `arith`: characters, decimal numbers and Rust's integer
  division, stated over mathematical sequences and integers.

`app/` holds the programs around it: the Rocket web server, the fetcher, the
tweet and a template check, with the database, HTTP and Twitter calls.
`tests/` runs the library on concrete values.

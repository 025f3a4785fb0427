# web3_proxy

A proxy in front of several web3 servers. It sends each request to the best server, or a signed
transaction to all servers for private requests, keeps replies in a cache for as long as the head
block stays the same, and lets a request wait for the same request if that is in flight. It also
answers queries for usage statistics.

`src/` is the library. Its functions state what they do in `requires` and `ensures` clauses that
Verus proves.

- `connections`, `servers`: the group of servers, each url once
- `upstream`, `lookup`: which server a request goes to
- `requests`: retries on other servers, and requests to all servers
- `quorum`, `tally`: the answer that most servers agree on
- `proxy`, `run`, `cache`, `in_flight`: the course of a request, the cache, the requests in flight
- `funnel`: subscriptions and pending transactions
- `stats`, `json`: the query for the database of statistics, and its answer
- `jsonrpc`, `error`, `text`: messages, errors and text

The library waits for nothing and sends nothing. A function that decides what is next takes an
event and returns a step; `app/` carries the step out and hands the next event back. A server is
known by its place in its group, a time is a number of nanoseconds, and a floating point number is
known by its bits.

What the library uses of other crates it declares with the contracts that these are trusted to
have, in `tally`, `lookup`, `servers`, `in_flight`, `json` and, for grouping, in `stats`.

`tests/` runs the library on concrete values.

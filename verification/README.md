# stock_stalker

A quote server and its client. The server accepts TCP connections on
which clients send `STREAM <udp-address> <ticker,ticker,...>`,
`STOP <udp-address>` and `PING`; for each subscription it sends random
quotes `<TICKER>|<PRICE>|<VOLUME>|<TIMESTAMP>` over UDP.

`src/` is the library, verified with Verus:

- `text`: trimming, searching and splitting of `str`, specified over `Seq<char>`.
- `decimal`: unsigned decimal integers, parsed and rendered as the standard library does.
- `error`: the error types and their wire and message texts.
- `tickers`: the set of known tickers, read from a ticker file, and the check of requested tickers.
- `protocol`: the `STREAM` and `STOP` commands and the address check.
- `quote`: the wire format of a quote, with its round-trip law.
- `registry`: which streams each client has.
- `server`, `client`: what each side decides for a line it reads.

`app/` holds the programs: sockets, threads, the command line, the ticker
file, and the float price of a quote.

# as2

EDI over HTTP, RFC 4130: a POST that carries a payload and the partners it
goes between, answered with a Message Disposition Notification that carries
the MIC of what arrived.

`src/` is the library, proved with Verus: what a message, its answer and its
receipt say on the wire, how each is read back, and what either partner makes
of what it reads.

| module | what it holds |
| --- | --- |
| `transport` | one partner: taking a request, answering it, preparing a message, verifying its receipt |
| `exchange` | what the two ends owe each other, as proved laws |
| `loopback` | both ends on one machine |
| `message` | a message and the POST that carries it, its MIC and its id |
| `mdn` | a receipt and the report that carries it |
| `numbers` | the numbers that messages are told apart by |
| `signer` | who signs and seals an entity |
| `multipart`, `mime`, `base64` | the formats a report is written in |
| `http`, `error` | requests, answers and errors as plain values |
| `text`, `lemmas` | text as sequences of characters, and what holds of it |

`app/` opens the connections, and reads and writes what goes over them.

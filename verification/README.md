# modem2sip

A gateway between an LTE modem and a SIP network: voice calls both ways, SMS
and MMS. One process serves one modem.

* `src/` is the library: everything the gateway computes and decides, verified
  with Verus. Its functions state in their contracts what they return for every
  input, and the `law_*` proof functions state what holds across them: that a
  message is read as it was written, that a request is handed on once, that
  knowing a Call-ID is not enough to end a call.
* `app/` is the program around it: sockets, D-Bus, the sound card, the database
  and the configuration file. It converts, performs what the library decided,
  and hands back what came of it.
* `tests/` runs the library on concrete values.

## Modules of the library

| Module      | What it holds                                                        |
|-------------|----------------------------------------------------------------------|
| `sip`       | messages, URIs, SDP, digest authentication, transactions, registrar  |
| `gateway`   | the rules by which calls, messages and modem events are answered     |
| `media`     | RTP packets, port ranges, digits heard in the audio                  |
| `audio`     | G.711, the rings between sound card and network, card discovery      |
| `mms`       | MMS and WSP encodings, DNS and HTTP towards the carrier, submission  |
| `mm`        | what ModemManager reports, and when a modem is usable                |
| `vendor`    | switching on the voice path of a modem                               |
| `http_api`  | the local API: requests, access, endpoints, answers                  |
| `config`, `state`, `db` | settings and their checks, numbers, records and file names |
| `net`, `text`, `table`, `http_head` | addresses, text, tables, HTTP heads      |

## What is trusted

Calls into other crates stand behind small functions marked
`#[verifier::external_body]`, each with a comment that says what is claimed of
the call: MD5, base64, percent encoding, character sets, random numbers and the
clock, and a few functions of the standard library.

# Medienzeit

A chess clock for screen time. A shared balance refills while the devices are put back at the
reader, or away from home, and drains while they are in use at home. A 1.54" e-ink display shows
what is left. At zero the FRITZ!Box cuts the devices off the internet, but only the ones that have
been taken away.

`src/` is the logic, written in Verus: what a function does is stated in its contract and proved.
`app/` is the ordinary Rust around it: sockets, buses, files, a window. `tests/` runs the library on
concrete values.

| Module | |
|---|---|
| `civil` | Europe/Berlin local time: the calendar and the change of clocks |
| `policy`, `state` | a daily allowance, and its ledger |
| `balance` | the rules as a single balance, and its ledger |
| `docking`, `screen`, `settings`, `journal`, `rtc`, `sntp`, `wire` | devices at the reader, when to redraw, what is stored and how |
| `pn5180`, `reader`, `scan` | the NFC reader: its commands, its bring-up, what is in the field |
| `tr064`, `http`, `fritzbox`, `cli`, `control` | the FRITZ!Box: SOAP, digest authentication, enforcement |
| `ui`, `panel`, `chime`, `clock`, `timing` | the screen, the e-paper, the speaker, the clock chip |
| `room`, `shared`, `flashlock`, `storage`, `notify`, `web`, `config` | the device's decisions |
| `sim` | the desk simulator's scenarios and sessions |
| `text`, `fixed` | characters, and text of bounded size |

The reader's bus, its BUSY line and its delays are traits. Their contracts say only that each call
is one transfer, one poll or one wait; what the driver promises is stated over those records.

The bounded strings and vectors of `heapless`, the MD5 of `md-5` and the glyph widths of
`u8g2-fonts` are used as they are; each is described by a contract next to the call.

## The balance

| Situation | Balance | Internet |
|---|---|---|
| Put back, at home | fills | on |
| In use at home | drains | on |
| Brief pickup, under the grace | held | on |
| The pickup runs long | drains, billed from the pickup | on |
| Out of the house | fills | on |
| Night, put back | fills | on |
| Night, taken away | held | blocked, and an alert |
| Balance at zero, taken away | drains toward the floor | blocked |
| Balance below zero, put back | fills back out of the hole | on |

## Configuration

`wifi.toml`, `fritzbox.toml`, `web.toml`, `ntfy.toml` and the optional `tags.toml` are flat
`key = "value"` files that stay out of the repository; `medienzeit provision` checks them. The ntfy
topic is a credential: only a prefix of it is ever logged.

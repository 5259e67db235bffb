# omniget

The verified core of a desktop companion that follows channels and keeps pets: small animated
characters that can be fetched from a service and installed.

`src/` decides and computes; it touches neither files nor the network. Its functions carry
contracts over mathematical models of their values, all but `channels::now_ms`: the clock promises
nothing. The laws that hold across functions are public proof functions at the end of each module.

| module | what it holds |
| --- | --- |
| `channels` | followed channels: ids, settings, and which videos a poll has seen |
| `pets::download` | requests to the pet service, how answers are judged, when to try again |
| `pets::manifest`, `pets::install` | what is installed, its index, and how it differs from the offer |
| `pets::job` | the installation of one pet, stage by stage |
| `pets::sync` | a synchronisation of many pets, a few at a time |
| `pets::archive`, `pets::bundle` | reading a zip bundle and installing its pets |
| `pets::state` | what is remembered between commands |
| `json`, `text`, `order`, `strmap`, `duplicate` | what the modules above rest on |

What is believed of other crates and of the standard library stands in `json`, `text`,
`channels`, `pets::download`, `pets::archive` and `pets::state`, each item with a comment that
says what is claimed.

`app/` is the desktop application around the library: files, requests, and commands.

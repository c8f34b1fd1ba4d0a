# chatroom-bridge

A hub that joins three places where a community talks: QQ groups (OneBot v11 over a
reverse WebSocket), a chatroom channel (HTTP) and the chat of a Minecraft server
(ChatBridge, AES over TCP). It also answers group commands, looks things up in
documents on request, and offers a small HTTP API.

The library in `src/` holds all that is decided and computed, and is verified with
Verus. It does no I/O: where something has to be sent or fetched, a function says what,
and another takes what came back.

| Module | What it is about |
|--------|------------------|
| `text`, `json`, `codec`, `error` | texts, JSON values, base64 and pictures, errors |
| `config`, `state` | the configuration, and the state that outlives the process |
| `adapters` | OneBot, the forward API, the token and the messages of the chatroom, ChatBridge |
| `services` | forwarding, commands, the status page, players who come and go |
| `router` | which handler a message goes to |
| `agent` | searching directories, wikis and repositories, and answering with or without a model |
| `service`, `api` | the hub put together, and the HTTP API |

What is proved of the library as a whole stands in public proof functions beside the
code: what is saved is loaded again, a forwarded message is not forwarded twice, a frame
is read as it was written, no summary shows a token, nothing of a tarball is unpacked
outside its directory, and more.

`tests/` runs the library with the services around it played by the test. `app/` is the
program: sockets, files, timers, the browser that draws the status page.

```
chatroom-bridge --config /app/config.json
```

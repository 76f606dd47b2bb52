# wsaas

A WebSocket gateway for backends that only speak HTTP. Clients open
WebSocket connections to the service; the service announces each one to the
backend (`POST <target>/<id>`) and keeps it only when the backend answers with
status 200 and the JSON body `{"code": "OK"}` (a refused connection is
closed and never registered), hands it every message the client sends
(`PUT <target>/<id>`) and tells it when the client leaves
(`DELETE <target>/<id>`). The backend pushes to a client with
`PUT <local>/<id>` and closes it with `DELETE <local>/<id>`.

Layout:

- `src/` is the verified library (Verus): the connection table, the session
  state machine that decides what to do with each connection event, the
  requests sent to the backend and the reading of its answers, the answers
  to the backend's requests, the settings, and the event-handler registry.
- `app/` is the program around it: environment, sockets, HTTP client and
  server, and the tasks that perform what the library decides.
- `tests/` exercises the library on concrete values.

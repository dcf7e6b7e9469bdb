# rmq_rpc

Request/reply calls through a RabbitMQ broker.

- `src/` is the verified library (Verus): the table of calls waiting for a
  reply and the routing of replies to them (`pending`), the shared slot of one
  call's reply (`reply`), the messages that are published (`publish`), the
  preparation of a call under the text of a UUID drawn by the caller (`client`), and a consumer
  that records and answers requests (`responder`).
- `app/` is the asynchronous client and server around it: connections,
  consumers and publishing with `lapin` on `tokio`.
- `tests/` exercises the library.

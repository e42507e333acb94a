# paxos_links

Building blocks for message passing between participants, as verified state
machines:

- `links`: envelopes; the fair-loss link (each queued envelope delivered or
  lost, with a chance of loss of 45 in 100 that the link holds), the stubborn link (every envelope handed on
  again and again, in turn), the perfect link (arrivals handed up exactly
  once) and the logged perfect link (the set of handed-up envelopes kept in a
  log across restarts); a record of what was sent and what arrived.
- `coordination`: the routing of messages between worker threads, one queue
  per worker; `protocol`: the behaviour of a worker, and the Paxos
  participant.
- `services`, `models`: a thread manager that routes commands to threads.
- `console`: the console's commands, and a parser that reads ` key value `
  options into a configuration.
- `text`, `queues`: whitespace, trimming and tokens; a table of queues.

`src/` is the verified library. `app/` runs it: the console, the threads, the
channels, the timers and the log file.

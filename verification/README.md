# tcp-channel-client

An asynchronous TCP client in the actor style, on `async-channel` and `tokio`, whose logic is
verified with Verus.

On connection two tasks are started: a reader task that runs what the user supplies, and a writer
task that carries out commands from a bounded channel. Calls on the client put commands on the
channel, so that reading and writing need no common lock.

## Layout

- `src/`: the verified library. It never waits and does no I/O.
  - `client`: the calls on a client and the rules for their results.
  - `writer`: the steps of the writer task, and the merging of `Send` commands into one write.
  - `reader`, `connect`: what follows when the reader ends, and when connecting ends.
  - `state`, `error`: the commands and the errors.
  - `channel`, `phase`: `async_channel` and the atomic phase of a client, with what is believed of
    them.
  - `wire`: what a run of the writer amounts to on the wire, and its laws.
  - `session`: calls on a client one after the other, and their laws.
  - `crowd`: calls on a client by many tasks at once, and their laws.
- `app/`: sockets, tasks and waiting, around the library.
- `tests/`: tests of the library, with the channel and in-memory connections.

## What is proved

Of the executable code:

- The writer carries out every command that it takes out of the channel, in order, and merges
  `Send` commands that wait one behind the other into one write.
- A call on `TcpClient` reports success only if the channel took its command, and no room or a
  closed channel only if the channel refused that command for that reason.
- The rules by which results follow from what the phase and the channel said are exact, and a call
  on `TcpClient` gives a result only where the phase had a value that this result goes with.

What the phase and the channel will say at a given moment depends on other tasks, and is not said of
`TcpClient`. The following is proved of models of it that are made of the same rules:

- Of the writer (`wire`): what reaches the wire is what the commands up to the first `Disconnect` ask
  for, in order, as far as the stream takes it, however it is cut into writes. Nothing is received,
  written or flushed after a `Disconnect`, and all that stands before it is carried out.
- Of calls one after the other (`session`): disconnecting twice is the same as disconnecting once, and
  later calls are refused. A call succeeds exactly where its command was accepted, and a call that
  fails changes nothing.
- Of calls by many tasks at once (`crowd`): at most one `Disconnect` is sent. A disconnect that
  succeeds leaves the client disconnected for good, and no call is let through after it. The commands
  of each task are accepted once each and in the order of its calls, and what each asks for stands together
  on the wire.

That the channel leaves no command out when it hands them on is a property of `async_channel`. The
laws that need it say so.

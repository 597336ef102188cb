# procserve

A server that starts programs for its peers. Over one byte stream a peer asks
for programs to be run and for bytes to be written to them; over the same
stream it is answered, and told what the programs print and how they end.

The protocol and every decision of the server are a Verus library; the program
around it does the input and output.

- `src/order.rs`: byte orders and the layout of integers
- `src/proto.rs`: the numbers and the two headers of the protocol
- `src/message.rs`: the messages of the server and their bytes
- `src/text.rs`: text out of a stream that is read piece by piece
- `src/state.rs`: the processes of a connection
- `src/request.rs`: the requests, their grammar, and what each calls for
- `src/session.rs`: the course of a connection, from event to action
- `src/monitor.rs`: news of processes, and the writer that sends them
- `src/endpoint.rs`: how a path becomes a connection
- `src/course.rs`: what holds of a connection from its start to its end
- `src/sharing.rs`: the stream to the peer, shared by answers and news
- `app/`: the program
- `tests/`: tests of the library

A request and a message have one shape: a four-byte header (operation or
result, number of attributes, padding), then the attributes, each with a
four-byte header (name, length) and its body. Integers are in the byte order
of the machine, except for the number of a process in a request to write, which
goes most significant byte first.

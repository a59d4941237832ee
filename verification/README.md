# tun2socks

Turns the TCP and UDP traffic of a TUN interface into SOCKS5 connections,
through the lwIP TCP/IP stack.

- `src/` is the verified library: dotted-decimal address text (formatting,
  parsing, and the conversions between socket addresses and lwIP addresses),
  the first-in first-out mailboxes between lwIP's callbacks and the tasks
  that poll them, the stack's packet queue, the decisions of a TCP
  connection (reading, how much to write, what a write returns, closing),
  and the table of UDP sessions.
- `tests/` runs the library on concrete values.
- `app/` is the program around it: the lwIP declarations and callbacks, the
  tokio tasks that relay traffic to the SOCKS5 proxy, and the command line.

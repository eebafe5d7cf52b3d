# ftp-slint

A desktop FTP client with two panels, a transfer queue and a log.

- `src/` is the library: listing parsers, paths, the calendar, the transfer queue, the course of a
  transfer, the negotiation of a session, and the state of the window. Every function in it is
  verified with Verus against the contract that it carries; laws that relate several functions are
  public proof functions beside them.
- `app/` is the program around it: sockets, files, threads and the Slint window. It performs the
  actions that the library's machines ask for and reports back what came of them.
- `tests/` runs the library on concrete values.

What the library takes on trust is small, and each such item says what it claims: the system clock,
the local time zone (by `chrono`), Unicode lower case, and two one-line facts about `String::push`
and `Arc::clone`.

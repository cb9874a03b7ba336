# bittorrent

A BitTorrent client. `src/` is a library of everything that it computes, verified with Verus:
reading torrent files, the messages between peers, the state of a download, the choice of whom to
upload to, and the conversations with trackers. Nothing in it reads, writes or waits: each event is
a function from the state and what has happened to the new state and what is to be done.

`app/` is the program around it. It opens files and connections, waits for events, hands them to
the library and does what comes back.

Every function states in its contract what it returns and how the state changes. What holds over
several calls stands in proof functions whose names begin with `law_`, among them:

* a message, a handshake and a datagram are read back as they were written;
* what is written to the files of a torrent is read back, and the rest of the files stays;
* a piece is marked as there only when its digest is the right one, and a bad piece is fetched
  again;
* every block of the current piece is in exactly one place: it has come, it waits in the queue, or
  one peer has been asked for it;
* nothing is uploaded to a choked peer, and only blocks that were asked for are taken.

SHA-1, bencoding, percent-encoding, random numbers, regular expressions and the addresses of web
requests come from other crates. What is taken on trust of these stands in the contracts of the
functions marked `external_body` and in the `assume_specification` items, each with a comment that
says what it claims.

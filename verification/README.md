# laser

Streams G-code to a CNC controller over a serial line, from a file, from
standard input or from a file in cloud storage.

- `src/` is the verified library: what the streaming session does with each
  event (`protocol`), the input side that answers the session's commands
  (`input_handler`), the cutting of a download into lines (`storage`), the
  reader over downloaded bytes (`vec_reader`), port choice and listing
  (`serial`), and the text helpers they rest on (`text`). The calls into std
  channels and the `regex` crate are declared in `foreign`.
- `app/` is the program around it: the command line, the serial port, the
  threads, and the cloud storage downloads.

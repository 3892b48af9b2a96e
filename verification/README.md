# rustle

A small LAN file-transfer tool. A daemon announces itself over mDNS and
answers on a TCP port; a sender finds daemons (mDNS, configured static peers
and subnets), asks to send a file, and streams it once the receiving user
accepts in a desktop notification.

- `src/` is the verified library (Verus): the line protocol
  (`protocol`), the receiving state machine (`transfer`), device discovery
  bookkeeping (`device`), configuration and the settings dialog's edits
  (`config`), command-line decisions (`cli`), the daemon's naming and
  notification answers (`daemon`), the sender's naming and picture loading
  (`sender`), and the text primitives they rest on (`text`).
- `app/` is the program around it: sockets, mDNS, files, notifications,
  windows and argument handling.
- `tests/` exercises the library on concrete values.

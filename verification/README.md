# musicsync

The desktop side of a program that copies an iTunes / Apple Music library to an
Android phone over the local network, with its logic verified by Verus.

- `src/` is the verified library. It reads a `Library.xml`, gives every track
  its path on the phone, finds out which tracks the phone has, plans a sync and
  accounts for its run, and decides what each message and each event means in a
  session, a pairing, the search for phones and the heartbeat.
- `tests/` runs the library on concrete values.
- `app/` is the program around it: the commands of the user interface, sockets,
  files, the clock, and JSON and YAML.

What is not proved is stated where it is called: each wrapper around a function
of `quick_xml`, `serde_json` or std says in its comment what it takes for
granted.

| Modules | What they hold |
|---|---|
| `xml`, `library`, `plist`, `watch` | reading of a library, what holds of every library that is read, and the watch over its file |
| `xml_helpers`, `track`, `tracks`, `playlist` | paths, tracks and `.m3u` files |
| `matching`, `sync`, `run`, `summary` | a sync: what the phone has, the plan, the run, the summary |
| `scan`, `cleanup`, `views`, `preview` | a scan: what it finds, what is deleted, what the user is shown |
| `settings`, `choices`, `devices` | the settings and how they change |
| `protocol`, `session`, `pair`, `heartbeat`, `discovery` | the messages and the decisions about them |
| `logs`, `scan_log`, `clock` | log lines and time stamps |
| `text`, `numbers`, `order` | text, numbers as text, and text in order |

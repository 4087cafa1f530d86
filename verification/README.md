# Tiny servers

Three small file servers (FTP, TFTP and HTTP) behind one window.

- `src/` is the verified library: what the servers answer, what they may open below their root
  folder, and what the window does. It touches neither the network nor the disk. Outside work is
  asked for by value, and its outcome is handed back by value.
- `app/` is the program around it: sockets, files, threads and the window system.
- `tests/` runs the library on concrete values.

| Module | What it holds |
| --- | --- |
| `ftp`, `transfer` | an FTP session, command by command, and how transfers end |
| `tftp` | requests, and downloads and uploads in numbered blocks |
| `httpd`, `exchange`, `pages` | requests and responses, their order, and the page of a folder |
| `lines` | lines out of a stream of bytes, with a bound on their length |
| `common` | the log, the listeners, and the rule that keeps the servers inside their root folder |
| `paths` | normal forms of paths, and what may be looked at below a root folder |
| `app`, `controls`, `icon` | the window, its controls and its icon |
| `clock`, `sizes`, `digits`, `text`, `unicode` | dates, sizes, numbers and text |

`icon::generate_icon` gives the icon as a file, for the resource that a Windows build attaches to the
program.

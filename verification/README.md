# tailscale-ui

A Linux tray controller for Tailscale. It reads `tailscale status --json` on a timer, shows the
connection state in the tray icon, tooltip and menu, and runs `tailscale up`, `down`, `set` and
`web` for the menu's actions: connect or disconnect, choose and remember an exit node (applied
again after reconnecting), allow LAN access through it, run and open the local web interface,
open the login page and admin console, and start on login.

## Layout

- `src/` is the library, verified with Verus. It computes what the tray shows, which commands
  its actions run and how its state changes, with a contract for each function:
  - `text`: trimming, escaping for desktop entries, decimal text, string order;
  - `json`: a parsed JSON document as plain values and the accessors the status reader uses;
  - `status`: the snapshot read from the status document, exit-node choices, their order and
    the lookup of the saved exit node;
  - `config`: the saved settings and where settings, cache, pid and autostart files live;
  - `tray`: the tray's state, status lines, the `tailscale` commands each action runs and how
    each action changes the settings;
  - `menu`: the menu, as a flat list of entries with submenu markers;
  - `indicator`: status, icons, title and tooltip;
  - `icon`: the 64x64 ARGB icon bitmap (rounded square, frame, two arrows);
  - `pidfile`: the pid file of the local web interface.
- `app/` is the program around it: it reads the environment and files, looks for `tailscale`
  along `PATH`, runs processes, sends signals, parses JSON with serde, stores the settings file
  and runs the StatusNotifierItem service (ksni), handing the results to the library.
- `tests/` runs the library on concrete values.

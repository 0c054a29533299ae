# bgwm

BGWM manages Windows virtual desktops ("workspaces"): global hotkeys that
switch workspaces or move the focused window (with Win-key passthrough rules),
a tray icon and menu, and app rules that move a program's main window to its
workspace when it opens.

- `src/` is the library, verified with Verus: every decision the program
  makes is a function with a contract there — configuration validation,
  hotkey parsing, what the keyboard hook swallows and fires, the routing of
  new app windows and its retries, workspace numbering, tray ids and labels,
  the icon catalogue, update policy, paths and UTF-16 text.
- `app/` is the Windows program around it: the event loop, the keyboard and
  WinEvent hooks, the virtual-desktop and registry calls, the tray, the
  settings window, the network and the JSON files. It asks the library what
  to do and carries it out.
- `tests/` exercises the library on concrete values.

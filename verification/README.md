# stilla

A menubar utility that runs the shell scripts in `~/.stilla/` on a timer and shows
their JSON output as a tray title and menu. A script named `<name>.<interval>.sh`
(`30s`, `5m`, `2h`, `1d`; an `n` after the interval asks for desktop notifications
when the items change) prints `{"title": ..., "items": [...]}` with items of kind
`link`, `text`, `divider` or `submenu`.

- `src/` is the verified library: interval and file-name parsing (`time_parse`,
  `manager::plugin_script_entry`), validation of a script's output (`script`), the
  hashed stream that tells outputs apart (`output_hash`), the menu an output stands
  for (`menu`), a plugin's decisions on each output (`plugin`) and the set of plugins
  with the menu ids that belong to each (`manager`).
- `app/` runs the scripts, draws the tray icons and menus, and sends notifications.

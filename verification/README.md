# jtail

Merged live tail of systemd journals across ssh hosts: jtail runs
`journalctl --follow --output=json` on every host over ssh, parses the
streams, buffers entries for a short window and prints them in timestamp
order, one stable color per host.

The logic is a Verus library under `src/`, with its behaviour stated in
`requires`/`ensures` contracts and proved:

- `record`: parsing of `journalctl -o json` lines into records
  (`serde_json` does the JSON, behind a wrapper whose result is named).
- `filter`: unit, priority and `--grep` filters (`regex` behind wrappers).
- `merge`: the cross-host ordering buffer, kept in release order.
- `skew`: clock-skew detection from the median of the first live samples.
- `render`: terminal lines (`jiff` for the wall-clock time, `owo-colors`
  for the escapes).
- `ssh`: the remote command line and its shell quoting, the handling of
  each line a session yields, the reconnect schedule and the ssh
  diagnostics that are shown.
- `tail`: the decisions of the main loop: live entries feed each host's
  skew estimate, entries that pass the filters enter the buffer, ticks
  release what has waited.
- `cli`: the command-line settings and what is derived from them.
- `strings`, `numbers`: character-level helpers and decimal parsing.

`app/` is the program around it: argument parsing with clap, the ssh
processes and channels with tokio, and the event loop.

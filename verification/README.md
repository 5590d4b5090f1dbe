# vrc_join_notificator

Watches VRChat's output log while the game runs and reports what happens in
the instance: users joining and leaving, the world entered, videos resolved,
screenshots taken and invites received. Notices go to XSOverlay, messages and
screenshots to a Discord webhook, and screenshots and the formatted log to an
SDMS server.

The library in `src/` is verified with Verus:

- `text`: characters, substring search, slicing at byte offsets as `&s[a..b]`
  does, joining, decimal numbers and reading integers.
- `function`: the list of users present (ids taken off names), settings of
  `config.txt`.
- `log_read`: splitting a log into lines, choosing the newest log file.
- `analyze`: the analysis of new log lines, with its laws (rounds, world,
  printed lines, uploads), and the upload queue.
- `webhook`, `idms`, `xsoverlay`, `image`: what is sent to Discord, SDMS and
  XSOverlay, and the passes of the WebP compression.

`app/` is the program around it: reading files and the clock, HTTP, UDP, image
encoding and the main loop.

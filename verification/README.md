# steambattery

Battery monitoring for the Steam Controller 2 ("Triton") on Linux: the rules of
a daemon that reads battery telemetry from the controller's HID reports and
publishes it on the session D-Bus, and of a COSMIC panel applet that shows it.

`src/` is a Verus library. Each function states what it does in its contract,
and what holds of the whole is stated as public proof functions.

- `protocol`, `interface`: the HID reports, and the D-Bus contract.
- `discovery`: which hidraw nodes belong to which controller.
- `reader`: the read loop of one node, one event at a time.
- `state`, `state_laws`: the registry of devices and what it publishes.
- `supervisor`, `supervisor_laws`: which nodes are read and retried, and when.
- `dbus`, `mirror`, `mirror_laws`: what the device objects show, and how a new
  list of snapshots changes them.
- `suspend`: resume signals and the reconnect backoff.
- `applet`, `window`: what the applet makes of a device, and its window.
- `clock`, `text`, `key_map`: time, numbers in text, and a map with text keys.

The library reads no clock and does no I/O. `app/` does: it opens the nodes,
talks to udev, logind and the session bus, keeps the timers, and draws the
applet. It is one program under two names: as `cosmic-applet-steambattery` it is
the applet, under any other name the daemon.

The `watch` channel of tokio, the object paths of zvariant and the error codes of
libc are called through a few functions whose contracts are believed; each says
so in its comment.

# pairqr

Pairs an Android device for wireless debugging: the program shows a QR code, the
device scans it, and adb pairs with the device and connects to it.

`src/` is a Verus library. It holds everything that the program decides:

- `credentials` makes the random name and password and the text of the QR code;
- `qr` draws the symbol with half-block characters;
- `adb` writes adb's arguments and reads what adb prints;
- `address` and `device` choose among a service's addresses and recognise the
  paired device;
- `probe` and `scan` tell an adb daemon from other servers and search for its
  port;
- `pairing` and `connect` are the two phases of a session, as state machines that
  take events in and say what to do next;
- `manual` reads the port that the user types;
- `text` is what all of these say about strings.

Each function states in its contract what it returns, and the `proof` functions
that stand behind them state what holds of a session as a whole: for instance
that a device counts as paired only if it announced the name in the QR code and
adb confirmed it afterwards (`pairing_is_earned`), or that scans keep their
distance (`scans_are_spaced`).

`app/` is the program around the library: it runs adb, browses for services,
opens sockets and prints.

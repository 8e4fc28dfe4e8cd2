# usbipdevirt

A USB/IP client that materializes a remote USB device as a local physical
USB device through the Linux raw-gadget interface: it imports the first
device a USB/IP server exports and re-creates it on a USB Device Controller,
so the host sees it as a real, physically attached device.

## Layout

- `src/` is the library, verified with Verus:
  - `endian.rs`: byte order of integers (network order for USB/IP,
    little-endian for USB).
  - `usbip/`: the USB/IP protocol. `wire.rs` holds the message layouts, each
    with an encoder, a decoder and the proofs that they undo each other;
    `client.rs` holds what a client sends, how it numbers and tracks its URBs,
    and what each reply means (`reply_step`), with the device list decoder.
  - `rawgadget/`: the raw-gadget kernel interface: request layouts, ioctl
    numbers, events, and the requests of a gadget device.
  - `bridge.rs`: the decisions of the bridge: the endpoints of a
    configuration, the route and outcome of each control request, speeds and
    setup packets.
- `app/` is the program: sockets, the raw-gadget device file and its ioctls,
  threads, logging and the command line.
- `tests/` runs the library on concrete values.

## Usage

```
usbipdevirt [--host <HOST>] [--port <PORT>] [--udc-driver <DRIVER>] [--udc-device <DEVICE>]
```

Defaults: `localhost`, `3240`, `1000480000.usb`, `1000480000.usb`. Root or
appropriate device permissions are required.

# irauth

IRAuth is a hardware-gated face authentication stack for Linux: a PAM module, a
root daemon (`irauthd`) and a control utility (`irauthctl`) around Howdy, which
refuse to authenticate through anything but a strict IR/depth camera.

The decisions of the stack are a library whose behaviour is specified and
proved with Verus:

- `src/protocol.rs`: the V1 line protocol between the PAM module, the utility
  and the daemon (encoding, decoding, the request round trip, one-line answers).
- `src/hardware.rs`: the strict camera policy (IR/depth names, verified
  `VID:PID@IFACE` selectors), the probe of `/sys/class/video4linux`, and how a
  configured path is matched to a strict device.
- `src/howdy.rs`: Howdy's `config.ini` (reading and rebinding the camera), the
  dlib model check and the `pamtester` details.
- `src/daemon.rs`: who may ask for whom, the per-peer rate limit, request
  dispatch and the daemon's answers.
- `src/pam.rs`: enabling, disabling and migrating PAM services, and the PAM
  module's arguments and result.
- `src/setup.rs`: the control utility's command line, names, transaction files,
  camera selection, doctor report and readiness probe.
- `src/passkey.rs`: the TPM-backed passkey bridge's diagnosis and user service.
- `src/text.rs`: the text primitives the rest is written with.

`app/` holds the programs themselves: sockets, files, processes and the PAM
entry points, calling the library for every decision. `tests/` exercises the
library on concrete values.

# usboot

USB boot protocol for Amlogic SoCs, verified with Verus.

`src/` is the protocol itself: every request a host sends to a SoC in USB
boot mode is computed by a verified function that returns the USB
transfers to run (`amlogic::transfer::Transfer`), and every answer of the
SoC is read by a verified function.  The contracts state the exact
transfers, bytes and errors; proof functions state what holds across them
(what a write sends is the data, what a read asks for is its length,
checksums add up, encodings read back).

- `amlogic::memory`, `amlogic::large`: simple and large memory reads and writes
- `amlogic::amlc`: the AMLC/AMLS exchange that loads BL2 data
- `amlogic::commands`: register, run, TPL, media and bulk commands
- `amlogic::checksum`, `amlogic::encoding`: additive checksum, little-endian words
- `amlogic::socid`: the SoC ID of the identify answer
- `amlogic::device`: finding the device while it enumerates
- `boot`: board families, boot files and the BL2 loading loop of the tools

`app/` runs the transfers over `nusb` and holds the two command-line tools,
`boot-g12` and `boot-gx`: one binary that runs the tool its own name names,
or, under another name, the tool its first argument names.

# flashcat

Host tool for FlashcatUSB programmers (Classic, Pro PCB 5.x, Mach1) and SPI NOR flash, with a
verified core.

- `src/` is the library. It decides everything: which bytes go to the programmer, how a chip is
  identified and at which voltage, what is erased and programmed, how firmware maps and status
  registers read, what is reported. It does no I/O. Scripts of host operations (`host::HostOp`)
  and step functions (`spi::probe::auto_probe`, `spi::detect::detect`, `spi::sfdp::read_sfdp`,
  `spi::protect::protect_chip`, `spi::quad::quad_next`) tell the caller what to do next. Each
  function carries its contract; the proof functions named `law_*` state what holds across
  functions, such as that a smart write leaves the flash exactly as it was with the data laid
  over it (`spi::smart`), or that a chip that could not be told apart at 1.8V never sees 3.3V
  (`spi::probe`).
- `app/` is the command line tool around it: USB transfers, files, the progress bar.
- `tests/` runs the library.

The tool reads three kinds of files from the directory that `FLASHCAT_DATA` names (`data` if it
is not set): the chip database `spi_nor.ron`, the request codes of the programmer firmware
`requests.ron`, and the logic images `PRO5_3V.bit`, `PRO5_1V8.bit`, `MACH1_3V3.bit` and
`MACH1_1V8.bit`.

# badapple

The logic of a small x86 kernel that plays the "Bad Apple!!" video on the
text-mode console, written in Verus with its behaviour stated in contracts
and proved.

* `src/` — the verified library:
  * `ba/` — the bit stream reader, the prefix-code decompressor (with the
    proof that decompressing the compressed form of a message, code word
    records and payload together, gives the message back), the frame
    builder and outliner, the video player and the show's timer steps;
  * `krnl/` — the console state machine, descriptor tables, interrupt and
    timer tables, CMOS clock decoding, the keyboard decision and ports;
  * `mm/` — the bump allocator and the memory size report;
  * `util/` — the pseudo-random number generator.
* `app/` — the kernel around it: port and video-memory I/O, interrupt entry
  points, spin-locked globals and the boot sequence.
* `tests/` — tests of the library on concrete values.

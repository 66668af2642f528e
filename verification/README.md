# touchhle audio and set helpers

A Verus library with two parts.

* CAF audio decoding: `g711` (µ-law and A-law), `lpcm` (signed integer
  linear PCM brought to 16 bits), `ima4` (Apple IMA 4:1 ADPCM), `pcm`
  (the 16-bit little-endian output layout), `caf_decoder` (what a file's
  audio description and packets decode to, with the checks that refuse a
  file), `caf_layout` (the chunk layouts the `caf` crate can open, and read
  packets from, without panicking or looping) and `caf_reader` (reading a
  file with the `caf` crate).
* `ns_set`: the decisions of the `NSSet` helpers that build a set's host
  dictionary and look up members, as state machines that a runtime drives.

`app/` holds the entry point `decode_caf_to_pcm`, which reads from the
cursor's position, contains any remaining panic of the `caf` crate, rounds
the floating-point sample rate and logs refusals.

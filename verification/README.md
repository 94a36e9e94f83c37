# dmtools

Device-mapper helpers with their behaviour proved by Verus.

- `src/device_mapper/ioctl.rs`: the `struct dm_ioctl` header, its packed
  little-endian layout (encoding and decoding proved inverse), the request
  buffers, the ioctl command numbers, and the decision taken on the kernel's
  answer (done, retry with a larger buffer, failed).
- `src/device_mapper.rs`: device identities, the fixed-size name and uuid
  fields (copy, pad, read back as C strings), and the backend interface.
- `src/device_mapper/high_level.rs`, `linear_target.rs`: tables of targets laid
  out one after the other, and the `linear` target.
- `src/device_mapper/utils.rs`: the device-mapper major numbers in a
  `/proc/devices` listing.
- `src/table_text.rs`: reading a table given on the command line.
- `src/text.rs`: white space, decimal numbers, lines and fields.
- `app/`: the program around the library: the ioctl calls, files, the command
  line, logging, and the configuration reader (whose values hold floats).

# ext4 on-disk structures, verified

A Verus library for the ext4 superblock, block group descriptors and inodes.

- `bytes`: little-endian encoding of integer fields.
- `crc`: CRC-32C as ext4 uses it (`ext4_crc32c`), with the law that running
  the register over two buffers in turn is running it over their
  concatenation.
- `superblock`, `block_group`, `inode`: each structure has an exact on-disk
  image (`spec_to_bytes`), an encoder (`to_bytes`), a decoder (`parse`,
  `TryFrom`), and a proof that the image determines the value, so decoding
  what was encoded gives the value back. The block group and inode modules
  compute and store their checksums and locate their records on the device.
- `device`: the `BlockDevice` trait that users implement for their storage,
  the library's errors and the block size. Its spec functions `spec_read`
  and `spec_write_requested` let the contracts of `load`, the `sync_*`
  functions and `get_inode_disk_pos` say at which position the device is
  read and what is written where.
- `file`: file descriptors and mount points.

The in-memory inode handles of a mounted file system (which refer to the
file-system object itself) are not part of this library.

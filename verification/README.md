# fs_xfs

The verified core of an XFS journalling driver. Every item under `src/` is
checked by Verus: what a function returns, when it refuses and with which
error stands in its contract.

- `endian`, `bytes`, `checksum`, `text`: fields, buffers, CRC32C, numbers in
  messages
- `superblock`, `extent`, `bmbt`: geometry, extent records, and the walk of a
  file's block map
- `format`: the constants of the log and of checksummed blocks
- `dinode`: the inode core, on disk and in the log
- `log`, `log_write`: building records and checkpoints
- `log_item`, `crc_kind`, `task`, `apply`: reading a transaction's items and
  applying them to blocks and inodes
- `overlay`: writes held in memory over a device
- `log_laws`, `apply_laws`, `frame_laws`: what a reader finds in what was
  written, what holds of a device that a transaction was applied to, and what
  the operations around a transaction's items come to

Nothing in `src/` performs I/O. `app/` connects it to `fs_core` devices.

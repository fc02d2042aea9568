# diskprobe

Opens a disk image (raw, qcow2, VHD, VHDX or VMDK), walks its partition table
and prints one JSON document that describes what is inside.

    diskprobe <path> [--container=qcow2|vhd|vhdx|vmdk]

| exit code | meaning |
|---|---|
| 0 | JSON written to the standard output |
| 1 | argument or option error |
| 2 | the file or its container could not be opened |
| 3 | there is a partition table, and it could not be read |

A disk without a partition table is a normal answer: exit code 0, `"table":"none"`
and a `device_fs_kind`. A failed filesystem sniff is reported in the document,
as `"error"` with the reason beside it.

## Layout

`src/` is the library, verified with Verus. It makes every decision:

- `args`: the command line
- `source`: a file with a record of what was done to it
- `read`, `magic`, `container`: filling a buffer, and telling which container
  a file is in
- `kinds`, `probe`: what the codes of a sniff and a probe mean
- `guid`, `json`, `report`, `text`: writing the document
- `value`, `meaning`: a model of JSON, and the proof that a document reads back
  as what it was written from
- `session`: a run of the program as a state machine

`app/` is the program around it: it opens files and devices, does what a
session asks for, and hands back what came of it.

`tests/` runs the library on concrete values.

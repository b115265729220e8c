# arx

A verified library for Arx archives: file trees stored in Jubako containers,
with the `arx` command that creates, lists, dumps, extracts and mounts them.

The library (`src/`) is written in Verus. Each of its functions states what it
does in `requires` / `ensures` over mathematical models (`Seq`, `Map`, views of
its types), and Verus proves it. The program (`app/`) is ordinary Rust: the
command line, file and container I/O, the FUSE plumbing.

## The library

- `bytes`: byte strings, their order and copies.
- `tree`, `flat`, `table`: the entry tree built while creating an archive, its
  layout as a flat entry store (each directory's children stored together,
  sorted by name), and the lookup of a path in that store by bisection.
- `create`: the entry store creator, adding entries by path.
- `arx`: an archive as read (entries, ranges, lookups) and the walk over its
  tree.
- `listing`: the plain and the stable listing of an archive.
- `extract`: extraction filters, what to do with existing files, the root of
  an extraction.
- `fs`: the file system view of an archive (inodes, attributes, open files,
  directory listings) behind its caches (`cache`).
- `paths`, `fs_adder`: paths inside the archive and on the file system, and
  how file system entries become archive entries.
- `cmd_utils`: the command line's compression and layout arguments.
- `ui`: what the archive viewer shows and decides.
- `bindings`: what the Python module decides.
- `laws`: properties that span several of the above, such as "what is added
  is read back" and "what the creator writes can always be listed".

Calls into outside crates (`lru`, `glob`, `relative-path`, `deranged`, parts of
`std`) go through small trusted wrappers whose contracts say what the crates'
sources do.

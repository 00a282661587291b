# nest_unzip

Unpacks an archive and, layer after layer, the single archive found inside
what it unpacked, with 7-Zip or Bandizip as the archiver.

- `src/` is the library, verified with Verus: locating the archiver
  (`locate`), the nested-extraction flow (`flow`), password attempts
  (`attempts`), flattening a directory that holds a single sub-directory
  (`flatten`), the archivers' command lines and registry records
  (`command`), reading their output (`output`, `stream`), classifying a
  failure (`results`), and the text helpers these rest on (`text`, `names`).
  Where a step needs the machine (a file, a process, the registry, the
  recycle bin), the library names the operation and takes its outcome back.
- `app/` is the Tauri shell: it performs those operations and talks to the
  window.
- `tests/` runs the library on concrete inputs.

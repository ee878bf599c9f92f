# lmdb

Safe access to the Lightning Memory-Mapped Database (LMDB), with everything that decides something
verified by Verus.

* `src/` is the verified library. It makes no call into LMDB or the operating system: it says which
  call comes next and what follows from its outcome.
  * `error`, `flags`, `database`: result codes, option flags and database handles.
  * `cursor`: positioning, walking, iterating and writing. A cursor keeps a ghost record of the calls
    that were made on it, and every function says which calls it adds. `cursor_model` states what
    LMDB documents of each call, `cursor_laws` which items each way of iterating and walking yields,
    and `update_laws` what putting and deleting comes to.
  * `environment`, `opening`, `freelist`: options, statistics, the size that a map grows to, opening
    an environment, and counting free pages.
  * `resize`, `float`: resize settings, and the single-precision trigger fraction among them.
  * `resizing`: replacing the memory map, growing it, and growing it ahead of a write transaction;
    `resize_laws` and `growing` state what resizing and growing come to.
  * `transaction_guard`: how a transaction goes live; `interlock` states why none is live while the
    map is replaced.
  * `system`: what is taken from the machine.
* `app/` makes the calls, and hands their outcomes to the library.
* `tests/` runs the library against stand-ins for LMDB and the disk.

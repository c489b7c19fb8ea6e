# ress_core

The headless engine of a file pager. It turns a byte offset into a screenful of
display rows, plans navigation and searches over files of any size, and meters
every read, so that a first paint costs one block read however large the file is.

`src/` is the engine. It does no I/O: it says which block, scan or match it needs
next and goes on with the answer. Every function states what it does in its
contract, and Verus proves it.

| module | what it holds |
| --- | --- |
| `utf8`, `width`, `glyph`, `line` | decoding a line and laying it out in a window of columns |
| `text`, `index` | lines of a text, and the sparse line index |
| `block`, `meter` | blocks of file data, metered reads, certified ends |
| `search`, `context`, `viewport` | what a row's search looks at, and what a screen shows |
| `scan`, `nav`, `document` | scans, navigation decisions, and the document that makes them |
| `layout_laws`, `nav_laws` | what holds of every layout and of every navigation |

`app/` is the asynchronous side: it fetches blocks, runs scans and searches in the
background and drives the engine. `tests/` runs the engine on files in memory.

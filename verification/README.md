# Papers

The rules of the Papers document viewer, verified with
[Verus](https://github.com/verus-lang/verus): page edits of PDF documents with
their undo and redo, the chat about a document, the thumbnails in the sidebar,
and the window with its tabs and the actions of a document.

## Layout

* `src/` is the verified library. It touches no file, no network and no widget:
  what alternates with those is a state machine that is handed what happened and
  hands back what to do.
* `tests/` runs the library.
* `app/` is the application around it: files, the Ollama server, and the widgets.

## What is proved

Each public function states in its contract what it returns and changes. Beyond
that, each module ends with the laws that relate its functions, as public proof
functions. Among them:

* an undo puts back the exact bytes of before an edit, as many redos as undos
  invert these, and an operation that is broken off leaves the document as it
  was and the history ready to go on (`page_edit_timeline`);
* reordering by an order and its inverse, and deleting what was merged in, give
  the pages back (`pdf_mutation`);
* the order and the bookmarks of the thumbnails read back from what was stored,
  and the order is a permutation in every state (`sidebar_thumbnails`);
* a cache that is too full gives up its oldest thumbnails that are not shown,
  and no others (`thumbnail_cache`);
* a question that fails leaves no trace in the talk, and one that is answered
  joins it with the whole answer (`sidebar_chat`).

## What is believed

`pdf_document`, `json` and `thumbnail_cache` call the crates `qpdf`,
`serde_json` and `lru`, and `text` calls three functions of the standard
library. What these calls are believed to do stands in the contracts there.

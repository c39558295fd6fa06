# hane_ui

The editing and bookkeeping logic behind Hane's Markdown editor view,
written in Verus and proved against its contracts.

- `utf`: byte, UTF-16 and character offsets into UTF-8 text.
- `strings`: splitting and splicing strings on character boundaries.
- `grapheme`: caret steps by extended grapheme cluster (`unicode-segmentation`).
- `text_field`: the inline rename field and the sidebar filter, with input
  method composition, selection and deletion.
- `paths`: what a rename edits, which names it accepts, how confirming,
  finishing and cancelling it goes, and how remembered paths follow a
  renamed note or folder (`std::path`).
- `parse_jobs`: when background parses start and how their results are used.
- `sidebar_tree`: the work folder tree flattened into sidebar rows, expanded
  or filtered.
- `fenwick`, `height_blocks`: chunked block metadata with a Fenwick tree
  over chunk lengths, and scroll anchors kept across splices.
- `layout`, `labels`: the current-revision test, the visible-row inversion, the header
  status line, draft labels and the date badge palette.

`app/` holds the pixel geometry, which is floating point, and the
conversions from file-system paths.

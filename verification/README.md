# lawpub

Normalizes Japanese statute data (e-Gov 法令API) and related public
records — the official gazette (官報), Diet minutes and bills, public
comments, procurement notices, council minutes, fiscal statistics — into
stable JSON files for a static site.

- `src/` is the library, verified with Verus: LawXML reading and
  normalization, revision comparison, snapshot resolution, the gazette
  table of contents and amendment texts, bill progress pages and
  resolution lists, Diet minutes, procurement notices, e-Stat answers,
  the cross-links between laws and records, and the decisions of the
  publishing pipeline (feeds, diffs, update runs, attachment handling,
  the days a procurement fetch asks for, how often a request is retried).
  Calls into outside crates (XML and HTML parsing, hashing, text diffs,
  multi-pattern search, ZIP, dates, URLs) go through small trusted
  wrappers whose contracts name what the call returns.
- `app/` is the `lawpub` command line: HTTP fetching, the file tree, and
  the page-geometry reconstruction of vertical PDF text (floating point).
- `tests/` exercises the library on concrete inputs.

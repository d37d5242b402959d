# cf_picker

Picks the fastest CDN edge addresses: it reads address ranges, probes each
address for latency (TCP or HTTP), keeps those in the wanted locations and
delay range, ranks them, then measures download speed on the best ones.

Layout:

- `src/` is the library, written in Verus and verified: range parsing and
  address sampling (`ip`), location-code extraction (`colo`), result tallies,
  filtering and stable ranking (`ping`, `sort`, `download`), progress state
  (`ui`), error-text assembly (`net`), hashing (`hash`) and random ranges
  (`traits`, `random`). Calls into outside crates sit behind small trusted
  wrappers whose contracts state what those crates document.
- `app/` is the command-line program around it: argument parsing, the async
  network probes, terminal output and CSV export.
- `tests/` exercises the library through its public interface.

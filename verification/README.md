# bravoh_daw

Reads DAW project files (Ableton Live `.als`, FL Studio `.flp`, Logic Pro
`.logicx`, REAPER `.rpp`) into one unified record, `ParsedIntelligence`, with
every parser verified by Verus against a mathematical model of its format.

## Layout

- `src/` — the verified library.
  - `lib.rs`: the `Daw` enum, extension detection, errors and the unified record
    with its model, plus the predicates the per-format laws share.
  - `ableton.rs`, `xml_events.rs`: gzip (flate2) and XML (quick-xml) events,
    read by a state machine over the event stream.
  - `fl_studio.rs`: the FLP header and tag-length-value event scan.
  - `project_data.rs`, `embedded_json.rs`, `logic.rs`: Logic's `ProjectData`
    strings, routing summary and the mapping to the unified record.
  - `reaper.rs`, `rpp_line.rs`: the line patterns and block structure of `.rpp`.
  - `number.rs`, `tally.rs`, `text.rs`: decimal numbers without floating point,
    plugin tallies, and character-sequence helpers.
- `tests/` — tests of the library on concrete inputs.
- `app/` — the command-line program: reading files, finding `ProjectData`
  inside a bundle, and printing JSON.

Each parser's public function states its result exactly over a spec function of
the input; the `law_*` proof functions state what every record a parser
produces satisfies (consistent mixer counts, plugins tallied once, tempo range,
fields a format does not expose left empty).

Logic Pro projects give no tempo, time signature, duration or swing: the tempo
that Logic embeds in `ProjectData` comes from Smart Tempo beat detection, not
from the project, so these fields are left empty (the JSON readers for them are
kept, but not used when reading a project).

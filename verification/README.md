# sd8viz-cli

A command-line tool that reads contact rows from a Google Sheet. The library
in `src/` is verified with Verus; `app/` holds the program around it.

- `src/auth.rs`: the OAuth scope the tool asks for.
- `src/column_range.rs`: column ranges, read from the command line and
  written, percent-encoded, into request URLs.
- `src/json.rs`: the JSON values of the Sheets API as plain data.
- `src/google_sheet_client.rs`: the client, the fetch of a sheet's values as a
  sequence of steps (request, status, body, records), and the shaping of the
  rows into header-keyed records.
- `src/contact_information.rs`: the selection of the block of rows that carry
  a precinct.
- `src/text.rs`: decimal formatting for messages.
- `app/`: argument parsing, OAuth, HTTP, JSON (de)serialisation and logging.

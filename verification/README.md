# jobseeker

The logic of a job-search assistant (saved job ads, application status,
reports to the employment officer, CSV exports and merges, database
migration, document extraction and rich-text editing), written in Verus with
its behaviour stated in `requires` / `ensures` contracts and proved.

- `src/` is the verified library. Calls into outside crates (chrono,
  pulldown-cmark, regex, urlencoding, zip, docx-rs) stand behind small trusted
  wrappers whose doc comments say what is believed of them.
- `tests/` runs the library on concrete values.
- `app/` is the command-line program around the library: the key-value
  store, SQLite reads, HTTP requests, files and printing.

# revive-me

A legacy data bridge: `.dbf`, `.xls`, `.xlsx`, `.csv` and `.tsv` files become clean JSON and a
modern `.xlsx`. Texts are cast to the number or truth value they read as, worksheet columns with the
same name are told apart by their index, blank rows are dropped, and of rows that are the same JSON
object the first stays.

- `src/` is the library, verified with Verus: the readers, the curation, the layout of the clean
  files, the names of jobs and files, and what each request is answered. Each module ends with the
  laws that hold of it. What is taken from other crates or from the standard library without a
  proof is marked `external_body` or `assume_specification`, with a comment that says what is
  claimed of it.
- `app/` is the web service around it: it opens uploads, writes the clean files and serves them.
- `tests/` runs the library on concrete files and requests.

## API

| Method | Path | |
|--------|------|---|
| `GET` | `/api/health` | health check and supported formats |
| `POST` | `/api/upload` | converts a file of at most 50 MB, returns the conversion record |
| `GET` | `/api/download/{filename}` | a clean `.json` or `.xlsx` |
| `DELETE` | `/api/cleanup/{id}` | deletes the clean files of a job |

A job's clean files are named by the first group of its id: job
`550e8400-e29b-41d4-a716-446655440000` leaves `550e8400_clean.json` and `550e8400_clean.xlsx`.

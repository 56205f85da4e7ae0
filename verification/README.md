# discogs_xml_converter

Converts Discogs XML data dumps to CSV files, or to rows for PostgreSQL's COPY.

The library under `src/` is written in Verus: what each function does is stated in its
contract and proved. The program under `app/` reads files, runs threads and talks to the
database around it.

| Part | Modules |
|---|---|
| Events of an XML document | `xml`, `element`, `error` |
| Records from events | `record`, `parser`, `artist_parser`, `label_parser`, `master_parser`, `parser_laws`, `body_laws` |
| Data | `model`, `artist_model`, `label_model`, `master_model` |
| Releases in a byte stream | `scanner` |
| Filters | `filter`, `library_pairs`, `keep_release_ids` |
| From a release to the output | `pipeline`, `output` |
| CSV files | `csv_file`, `csv_laws`, `writer`, `artist_writer`, `label_writer`, `master_writer` |
| PostgreSQL rows | `pg_output`, `pg_finish`, `pg_laws` |
| Kinds of dumps | `dump` |
| Text | `text` |

Functions named `law_...` state what holds across several functions, such as that no
release id is written twice, or that every record of every CSV file refers to a release.

What other crates do is stated, not proved, at the functions that call them: `quick_xml`
reads events, `csv` writes and reads records, `memchr` searches, `itoa` writes numbers, and
`wxyc_etl` normalizes names and buffers rows.

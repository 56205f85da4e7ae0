//! Conversion of Discogs XML data dumps.
//!
//! A dump is a document of releases, artists, labels or masters. Its records are read from
//! the events of the document, releases are filtered against a library, and the records
//! become CSV files or rows of PostgreSQL tables.

pub mod artist_model;
pub mod artist_parser;
pub mod artist_writer;
pub mod body_laws;
pub mod csv_file;
pub mod csv_laws;
pub mod dump;
pub mod element;
pub mod error;
pub mod event_laws;
pub mod field_laws;
pub mod filter;
pub mod filter_laws;
pub mod keep_release_ids;
pub mod label_model;
pub mod label_parser;
pub mod label_writer;
pub mod library_pairs;
pub mod master_model;
pub mod master_parser;
pub mod master_writer;
pub mod model;
pub mod output;
pub mod parser;
pub mod parser_laws;
pub mod part_laws;
pub mod pg_columns;
pub mod pg_finish;
pub mod pg_laws;
pub mod pg_output;
pub mod pipeline;
pub mod reading_laws;
pub mod record;
pub mod record_laws;
pub mod release_columns;
pub mod scanner;
pub mod table_columns;
pub mod text;
pub mod text_laws;
pub mod writer;
pub mod xml;

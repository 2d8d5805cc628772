//! Caption normalization, chunk planning and the decision logic of a
//! streamed summarization run, with the two small readings around them: the
//! caption downloader's report and the name of the output file.
pub mod text;
pub mod caption;
pub mod caption_lemmas;
pub mod chunk;
pub mod prompt;
pub mod summary;
pub mod naming;
pub mod fetch;

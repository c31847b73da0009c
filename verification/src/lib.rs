//! Verified text-processing core of a document indexing module: routing of
//! documents to parsers, text normalisation, markdown and HTML text extraction,
//! PDF content-stream text extraction and the small result-assembly rules that
//! sit around them.

pub mod file_read;
pub mod text;
pub mod text_parser;
pub mod html_parser;
pub mod pdf_parser;
pub mod parser;
pub mod epub_parser;
pub mod epub_parser_simple;
pub mod indexer;
pub mod ocr;

//! Reading amending acts: the list of changes and the words of directives.
pub mod changes_parser;
pub mod diagramm;
pub mod chars;
pub mod tags;
pub mod changes_map;
pub mod target_document;
pub mod changes_checker;
pub mod words;
pub mod replace;
pub mod path_plus_number;
pub mod apply;
pub mod word_directives;
pub mod line_reader;

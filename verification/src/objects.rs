//! Numbers and kinds of the structural units of a legal act.
pub mod number;
pub mod number_order;
pub mod number_parser;
pub mod number_markdown;
pub mod header_type;
pub mod item_type;
pub mod remain_tokens;
pub mod number_alternative;

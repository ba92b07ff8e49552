pub mod binary_prefix;
pub mod conversion_table;
pub mod decimal;
pub mod error;
pub mod substitute;

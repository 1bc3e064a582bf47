//! The routing table, its rows, and what routing by it achieves.

pub mod progress;
pub mod routing_table;
pub mod routing_table_row;

pub mod types;
pub mod table;
pub mod ids;
pub mod store;
pub mod records;
pub mod dispatch;
pub mod laws;
pub mod speech;
pub mod audio;
pub mod order;
pub mod announce;

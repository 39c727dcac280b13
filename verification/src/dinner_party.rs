pub mod fork;
pub mod philosopher;
pub mod table;

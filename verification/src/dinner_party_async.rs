pub mod fork;
pub mod philosopher;

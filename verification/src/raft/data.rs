pub mod data_type;
pub mod id_set;
pub mod persistent_state;
pub mod request;
pub mod volitile_state;

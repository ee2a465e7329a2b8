pub mod data_base_ascan;

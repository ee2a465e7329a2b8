pub mod ascan_struct;

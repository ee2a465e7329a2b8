pub mod ascan_db;

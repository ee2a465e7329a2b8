pub mod ascan;

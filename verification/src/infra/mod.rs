pub mod askan;

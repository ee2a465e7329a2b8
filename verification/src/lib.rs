//! Data preparation for the wheel-inspection ("Ascan") service: the lists
//! of batches and heats offered for selection, the rows found for a batch
//! or heat on each production line, and the locations of their images.
pub mod data_base;
pub mod infra;
pub mod structures;
pub mod utils;

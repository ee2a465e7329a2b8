pub mod ordered;
pub mod text;
pub mod utils_metod;

//! What the modals of the game show.
pub mod results;
pub mod results_banner;
pub mod result_laws;

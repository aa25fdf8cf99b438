pub mod configuration;
pub mod results;
pub mod communication;
pub mod messaging;

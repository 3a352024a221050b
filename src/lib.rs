pub mod appointment;
pub mod clock;
pub mod report;
pub mod request;
pub mod response;
pub mod settings;

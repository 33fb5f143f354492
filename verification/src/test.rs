pub mod adult;
pub mod adult_large;
pub mod csv_exporter;
pub mod dummy_publisher;
pub mod environment;
pub mod metrics;

pub mod csv_publisher;
pub mod publisher;

pub mod aggregation;
pub mod anonymizable;
pub mod mueller;

pub mod analyser;
pub mod cluster_analyser;
pub mod disclosure_risk_analyser;
pub mod mse_analyser;
pub mod publishing_delay_analyser;
pub mod sse_analyser;

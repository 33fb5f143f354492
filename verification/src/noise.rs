pub mod laplace;
pub mod noiser;

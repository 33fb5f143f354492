pub mod categorical_noiser;
pub mod laplace_noiser;
pub mod numerical_noiser;

pub mod alpha_beta;
pub mod clock;

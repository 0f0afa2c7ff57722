//! Single-variable linear regression of a car's price on its mileage, trained
//! by gradient descent with an adaptive ("bold driver") learning rate.
//!
//! All numbers are saturating fixed-point values (see `fixed`): a value counts
//! millionths of a unit. Each column of the dataset is mapped to the unit
//! interval with its own range; a column whose values are all equal maps to
//! zero rather than to an undefined value.
pub mod fixed;
pub mod utils;
pub mod trainer;
pub mod estimator;
pub mod accuracy;

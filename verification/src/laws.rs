//! What the library promises, told of its inputs and results.

pub mod after;
pub mod before;
pub mod texts;
pub mod upstream;
pub mod values;

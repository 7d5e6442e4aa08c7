//! Builder for the arguments of a contract call and their binary encoding:
//! typed values are collected in order, each validated as it is added, and
//! laid out as a head of fixed-size words followed by a tail of variable-size
//! data.

pub mod assembler;
pub mod builder;
pub mod error;
pub mod hex;
pub mod laws;
pub mod layout;
pub mod parameter;
pub mod validate;
pub mod word;

pub use builder::PyCallParams;
pub use error::CallParamsError;
pub use parameter::Parameter;

pub mod abi;
pub mod consts;
pub mod contract;
pub mod diag;
pub mod error;
pub mod execute;
pub mod helper;
pub mod msg;
pub mod reply;
pub mod state;

pub use crate::error::ContractError;

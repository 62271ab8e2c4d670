//! A minimal token ledger: fixed-layout balance records kept in account
//! buffers, and the two instructions that change them, mint and transfer.
pub mod endian;
pub mod error;
pub mod state;
pub mod instruction;
pub mod processor;

pub use processor::process_instruction;
pub use state::Token;

//! An instruction dispatch and account-constraint validation engine for
//! on-chain programs.
//!
//! A call arrives as a program identity, an ordered list of accounts and a
//! payload. The dispatcher finds the registered instruction whose
//! discriminator opens the payload and decodes the arguments that follow it;
//! the validator binds the accounts to the instruction's declared context,
//! checking every declared constraint in order; only then does the handler run.
pub mod account;
pub mod codec;
pub mod dispatcher;
pub mod endian;
pub mod error;
pub mod identity;
pub mod lifecycle;
pub mod program;
pub mod schema;
pub mod validator;

//! Proofs of knowledge of BBS+ and CL03 signatures, and the generators and
//! range proofs they rest on.
pub mod bytes;
pub mod curve;
pub mod bbsplus;
pub mod utils;
pub mod cl03;
pub mod integer;
pub mod modular;
pub mod schemes;
pub mod signatures;
pub mod hash;

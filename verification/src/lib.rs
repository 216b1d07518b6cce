//! A symmetric block cipher with PKCS7 padding and the ECB, CBC and CTR modes
//! of operation, and the digests, encodings, big integers and generators
//! that are used around it.
//!
//! Every executable function carries a contract over a mathematical model of
//! its data. The contracts are proved, but for three small functions that
//! call outside code (`String::push`, `hex::decode` and `hex::encode`), whose
//! contracts are stated and taken on trust.

pub mod aes;
pub mod base64;
pub mod bits;
pub mod buffer;
pub mod chunk_pair_iter;
pub mod dh;
pub mod hexcodec;
pub mod key_value;
pub mod mac;
pub mod md4;
pub mod md_blocks;
pub mod pkcs7;
pub mod random;
pub mod sextet_iter;
pub mod sha;
pub mod ubig;
pub mod urandom;

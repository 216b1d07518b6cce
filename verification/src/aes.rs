//! The AES block cipher: key schedule, block transforms and modes of operation.

pub mod block;
pub mod cipher;
pub mod ctr;
pub mod gf256;
pub mod key;
pub mod laws;
pub mod modes;
pub mod sbox;
pub mod sbox_field;

pub use crate::aes::block::Block;
pub use crate::aes::cipher::{cipher, inv_cipher};
pub use crate::aes::ctr::{aes_ctr, AesCtrIter};
pub use crate::aes::key::{key_expansion, AesError, AesKey};
pub use crate::aes::modes::{
    aes_cbc_decrypt, aes_cbc_encrypt, aes_ecb_decrypt, aes_ecb_encrypt, BlockIter,
};

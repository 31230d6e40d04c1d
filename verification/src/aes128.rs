//! AES-128 block-cipher backend.
//!
//! The CCM* engine is built over encryption of single 16-byte blocks under a
//! fixed key. The cipher itself comes from the `aes` crate; everything the
//! library proves about it goes through the name `aes128_block`.

use vstd::prelude::*;

verus! {

/// Cipher block size in bytes.
pub const BLOCK_SIZE: usize = 16;

/// Cipher key size in bytes.
pub const KEY_SIZE: usize = 16;

/// What the AES-128 block cipher of the `aes` crate returns for a key and one
/// input block: a function of those two arguments alone.
pub uninterp spec fn aes128_block(key: Seq<u8>, block: Seq<u8>) -> Seq<u8>;

/// The AES-128 permutation of one block, normalized to its documented
/// 16-byte width.
pub open spec fn cipher_block(key: Seq<u8>, block: Seq<u8>) -> Seq<u8> {
    let r = aes128_block(key, block);
    if r.len() == 16 {
        r
    } else {
        Seq::new(16, |i: int| 0u8)
    }
}

/// Encryption of single 16-byte blocks under a fixed AES-128 key.
pub struct RustAes128Encrypt {
    cipher: aes::Aes128,
    key: Vec<u8>,
}

#[verifier::external_type_specification]
#[verifier::external_body]
pub struct ExAes128(aes::Aes128);

impl RustAes128Encrypt {
    /// Relies on `aes::Aes128::new_from_slice`, which builds the cipher for a
    /// 16-byte key; the key is retained so that contracts can speak of it.
    #[verifier::external_body]
    pub fn new(key: &[u8]) -> (r: RustAes128Encrypt)
        requires
            key@.len() == KEY_SIZE,
        ensures
            r.key_view() == key@,
    {
        let cipher = <aes::Aes128 as aes::cipher::KeyInit>::new_from_slice(key).unwrap();
        RustAes128Encrypt { cipher, key: key.to_vec() }
    }

    /// The key this cipher was built with.
    pub closed spec fn key_view(&self) -> Seq<u8> {
        self.key@
    }

    /// Relies on the `aes` crate's AES-128 `encrypt_block`: the result is a
    /// single 16-byte block depending on the key and the input block alone.
    #[verifier::external_body]
    pub(crate) fn encrypt_block(&self, input: &[u8]) -> (r: Vec<u8>)
        requires
            input@.len() == BLOCK_SIZE,
        ensures
            r@ == aes128_block(self.key_view(), input@),
            r@ == cipher_block(self.key_view(), input@),
    {
        let mut block: aes::cipher::Array<u8, aes::cipher::consts::U16> =
            aes::cipher::Array::try_from(input).unwrap();
        aes::cipher::BlockCipherEncrypt::encrypt_block(&self.cipher, &mut block);
        block.as_slice().to_vec()
    }
}

/// A backend able to encrypt one AES-128 block in place of the hardware
/// accelerator: it leaves in `output` the AES-128 permutation of `input`
/// under the key it was set up with, and keeps that key across calls.
pub trait Aes128Encrypt {
    /// The AES-128 key this backend was set up with.
    spec fn spec_key(&self) -> Seq<u8>;

    fn aes128_encrypt(&mut self, input: &[u8], output: &mut Vec<u8>)
        requires
            input@.len() == BLOCK_SIZE,
            old(output)@.len() == BLOCK_SIZE,
        ensures
            final(output)@ == cipher_block(old(self).spec_key(), input@),
            final(self).spec_key() == old(self).spec_key(),
    ;
}

/// A backend able to decrypt one AES-128 block in place of the hardware
/// accelerator. The CCM* construction runs the cipher forward in both
/// directions, so the library itself neither implements nor calls this
/// trait; it is declared contract-free for decrypt-capable backends, since
/// a promise no implementation in the library discharges would be taken on
/// trust.
pub trait Aes128Decrypt {
    fn aes128_decrypt(&mut self, input: &[u8], output: &mut Vec<u8>)
        requires
            input@.len() == BLOCK_SIZE,
            old(output)@.len() == BLOCK_SIZE,
    ;
}

impl Aes128Encrypt for RustAes128Encrypt {
    open spec fn spec_key(&self) -> Seq<u8> {
        self.key_view()
    }

    fn aes128_encrypt(&mut self, input: &[u8], output: &mut Vec<u8>) {
        *output = self.encrypt_block(input);
    }
}

/// Direction of a block-cipher operation on an accelerator backend.
#[derive(Clone, Debug, PartialEq, Eq, Structural)]
pub enum EncryptDecrypt {
    /// Encrypt operation
    Encrypt,
    /// Decrypt operation
    Decrypt,
}

/// Block-cipher key widths an accelerator backend distinguishes.
#[derive(Clone, Debug, PartialEq, Eq, Structural)]
pub enum KeyType {
    /// 128-bit AES key
    Aes128,
    /// 192-bit AES key
    Aes192,
    /// 256-bit AES key
    Aes256,
    /// 512-bit AES key
    Aes512,
}

/// Block-cipher operation modes an accelerator backend distinguishes.
#[derive(Clone, Debug, PartialEq, Eq, Structural)]
pub enum AesOperationMode {
    /// Electronic codebook
    Ecb,
    /// Cipher block chaining
    Cbc,
    /// Cipher block chaining - message authentication code
    CbcMac,
    /// Counter
    Ctr,
    /// Cipher block chaining - message authentication code with extras
    XCbcMac,
    /// Cipher-based message authentication code
    CMac,
    /// XEX with tweak and ciphertext stealing
    Xts,
    /// Cipher block chaining with ciphertext stealing
    CbcCts,
    /// Output feed-back
    Ofb,
}

/// Padding schemes an accelerator backend distinguishes.
#[derive(Clone, Debug, PartialEq, Eq, Structural)]
pub enum PaddingType {
    /// No padding scheme, padded with zeroes
    Unpadded,
    /// PKCS7 padding
    Pkcs7,
}

} // verus!

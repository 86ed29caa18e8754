//! Helpers for the encrypted HTTP filesystem format.

use cbc::cipher::{block_padding::Pkcs7, BlockModeDecrypt, KeyIvInit};
use vstd::prelude::*;
use crate::bytes;

verus! {

pub const HEADER_LEN: usize = 20;

#[derive(Clone, Copy, Debug, PartialEq, Eq, Structural)]
pub enum CryptoError {
    InvalidHeader,
    InvalidCiphertext,
    InvalidIterations,
}

/// The bytes that PBKDF2 with HMAC-SHA-256 derives.
pub uninterp spec fn derived_bytes(
    password: Seq<u8>,
    salt: Seq<u8>,
    iterations: u32,
    len: nat,
) -> Seq<u8>;

/// Calls `pbkdf2::pbkdf2` with `Hmac<Sha256>`, which fills its buffer with
/// bytes that depend on the password, the salt, the number of rounds and the
/// length alone. It fails only for a password of a length that the function
/// under it does not take, and HMAC takes every length. Its block counter has
/// 32 bits and starts at one, which bounds the length.
#[verifier::external_body]
fn pbkdf2_hmac_sha256(password: &[u8], salt: &[u8], iterations: u32, output: &mut [u8]) -> (r: bool)
    requires
        old(output)@.len() <= 32 * 0xffff_ffff,
    ensures
        r,
        final(output)@ == derived_bytes(password@, salt@, iterations, old(output)@.len()),
        final(output)@.len() == old(output)@.len(),
{
    pbkdf2::pbkdf2::<pbkdf2::hmac::Hmac<sha2::Sha256>>(password, salt, iterations, output).is_ok()
}

/// Derives bytes from a password with PBKDF2-HMAC-SHA256.
///
/// # Errors
///
/// Returns an error when `iterations` is zero.
pub fn derive_key(password: &[u8], salt: &[u8], iterations: u32, output: &mut [u8]) -> (r: Result<
    (),
    CryptoError,
>)
    requires
        old(output)@.len() <= 32 * 0xffff_ffff,
    ensures
        r == (if iterations == 0 {
            Err(CryptoError::InvalidIterations)
        } else {
            Ok::<(), CryptoError>(())
        }),
        final(output)@ == (if iterations == 0 {
            old(output)@
        } else {
            derived_bytes(password@, salt@, iterations, old(output)@.len())
        }),
        final(output)@.len() == old(output)@.len(),
{
    if iterations == 0 {
        return Err(CryptoError::InvalidIterations);
    }
    if pbkdf2_hmac_sha256(password, salt, iterations, output) {
        Ok(())
    } else {
        Err(CryptoError::InvalidIterations)
    }
}

/// The blocks that AES-128 in CBC mode decrypts a ciphertext to.
pub uninterp spec fn cbc_blocks(key: Seq<u8>, iv: Seq<u8>, ciphertext: Seq<u8>) -> Seq<u8>;

/// The number of bytes in front of the padding of the last block: the padding
/// is one to sixteen bytes, each of which holds their number.
pub open spec fn unpadded_len(blocks: Seq<u8>) -> Option<nat> {
    let n = blocks.last();
    if blocks.len() >= 16 && 1 <= n <= 16 && (forall|i: int|
        blocks.len() - n <= i < blocks.len() ==> blocks[i] == n) {
        Some((blocks.len() - n) as nat)
    } else {
        None
    }
}

/// Calls `decrypt_padded::<Pkcs7>` of `cbc::Decryptor<Aes128>`, which decrypts
/// whole blocks in place and gives the part in front of the padding, or an
/// error if the last block is not padded. Says how long that part is.
#[verifier::external_body]
fn decrypt_blocks(key: &[u8; 16], iv: &[u8; 16], data: &mut [u8]) -> (r: Option<usize>)
    requires
        old(data)@.len() > 0,
        old(data)@.len() % 16 == 0,
    ensures
        final(data)@ == cbc_blocks(key@, iv@, old(data)@),
        final(data)@.len() == old(data)@.len(),
        match r {
            Some(len) => unpadded_len(final(data)@) == Some(len as nat),
            None => unpadded_len(final(data)@) is None,
        },
{
    let cipher = cbc::Decryptor::<aes::Aes128>::new(key.into(), iv.into());
    cipher.decrypt_padded::<Pkcs7>(data).ok().map(|plaintext| plaintext.len())
}

/// An encrypted file starts with a magic number and an initialization vector.
pub open spec fn sound_header(file: Seq<u8>) -> bool {
    file.len() >= HEADER_LEN && file[0] == 0xfb && file[1] == 0xa2 && file[2] == 0xe9 && file[3]
        == 0x01
}

/// The part of an encrypted file behind its header.
pub open spec fn ciphertext_of(file: Seq<u8>) -> Seq<u8> {
    file.skip(HEADER_LEN as int)
}

/// A file after its ciphertext has been decrypted in place, and the plaintext
/// in it; `blocks` is what the ciphertext decrypts to.
pub open spec fn decrypted(file: Seq<u8>, blocks: Seq<u8>) -> (
    Result<Seq<u8>, CryptoError>,
    Seq<u8>,
) {
    if !sound_header(file) {
        (Err(CryptoError::InvalidHeader), file)
    } else if file.len() == HEADER_LEN || (file.len() - HEADER_LEN) % 16 != 0 {
        (Err(CryptoError::InvalidCiphertext), file)
    } else {
        (
            match unpadded_len(blocks) {
                Some(len) => Ok(blocks.take(len as int)),
                None => Err(CryptoError::InvalidCiphertext),
            },
            file.take(HEADER_LEN as int) + blocks,
        )
    }
}

/// The initialization vector of an encrypted file with whole blocks behind its
/// header.
///
/// # Errors
///
/// Returns an error for a bad header or non-block-aligned ciphertext.
pub fn read_header(file: &[u8]) -> (r: Result<[u8; 16], CryptoError>)
    ensures
        match r {
            Ok(iv) => sound_header(file@) && file@.len() > HEADER_LEN && (file@.len() - HEADER_LEN)
                % 16 == 0 && iv@ == file@.subrange(4, HEADER_LEN as int),
            Err(error) => forall|blocks: Seq<u8>|
                #[trigger] decrypted(file@, blocks) == (Err::<Seq<u8>, _>(error), file@),
        },
{
    if file.len() < HEADER_LEN || file[0] != 0xfb || file[1] != 0xa2 || file[2] != 0xe9 || file[3]
        != 0x01 {
        return Err(CryptoError::InvalidHeader);
    }
    let len: usize = file.len() - HEADER_LEN;
    if len == 0 || len % 16 != 0 {
        return Err(CryptoError::InvalidCiphertext);
    }
    let mut iv: [u8; 16] = [0; 16];
    let mut i: usize = 0;
    while i < 16
        invariant
            i <= 16,
            file@.len() >= HEADER_LEN,
            forall|j: int| 0 <= j < i ==> iv@[j] == file@[4 + j],
        decreases 16 - i,
    {
        iv[i] = file[4 + i];
        i = i + 1;
    }
    assert(iv@ =~= file@.subrange(4, HEADER_LEN as int));
    Ok(iv)
}

/// Puts decrypted blocks in the place of the ciphertext and gives the part of
/// them in front of the padding, if they are padded.
///
/// # Errors
///
/// Returns an error for invalid padding.
pub fn place_plaintext<'a>(file: &'a mut [u8], blocks: &[u8], plain_len: Option<usize>) -> (r:
    Result<&'a [u8], CryptoError>)
    requires
        old(file)@.len() == HEADER_LEN + blocks@.len(),
        plain_len matches Some(len) ==> len <= blocks@.len(),
    ensures
        final(file)@ == old(file)@.take(HEADER_LEN as int) + blocks@,
        match plain_len {
            Some(len) => r matches Ok(plaintext) && plaintext@ == blocks@.take(len as int),
            None => r matches Err(error) && error is InvalidCiphertext,
        },
{
    bytes::splice_slice(file, HEADER_LEN, blocks);
    assert(file@ =~= old(file)@.take(HEADER_LEN as int) + blocks@);
    match plain_len {
        Some(len) => {
            assert(file.len() <= usize::MAX);
            let plaintext: &[u8] = vstd::slice::slice_subrange(file, HEADER_LEN, HEADER_LEN + len);
            assert(plaintext@ =~= blocks@.take(len as int));
            Ok(plaintext)
        },
        None => Err(CryptoError::InvalidCiphertext),
    }
}

/// Decrypts `magic || IV || AES-128-CBC/PKCS#7 ciphertext` in place.
///
/// The returned slice aliases `file` and contains only the plaintext.
///
/// # Errors
///
/// Returns an error for a bad header, non-block-aligned ciphertext, or invalid
/// PKCS#7 padding.
pub fn decrypt_legacy_file<'a>(key: &[u8; 16], file: &'a mut [u8]) -> (r: Result<
    &'a [u8],
    CryptoError,
>)
    ensures
        ({
            let blocks = cbc_blocks(
                key@,
                old(file)@.subrange(4, HEADER_LEN as int),
                ciphertext_of(old(file)@),
            );
            let (result, after) = decrypted(old(file)@, blocks);
            &&& final(file)@ == after
            &&& match r {
                Ok(plaintext) => result == Ok::<_, CryptoError>(plaintext@),
                Err(error) => result == Err::<Seq<u8>, _>(error),
            }
        }),
{
    let iv: [u8; 16] = match read_header(file) {
        Ok(iv) => iv,
        Err(error) => {
            assert(decrypted(
                file@,
                cbc_blocks(
                    key@,
                    file@.subrange(4, HEADER_LEN as int),
                    ciphertext_of(file@),
                ),
            ) == (Err::<Seq<u8>, _>(error), file@));
            return Err(error);
        },
    };
    let mut data: Vec<u8> = bytes::copy_range(file, HEADER_LEN, file.len() - HEADER_LEN);
    assert(data@ =~= ciphertext_of(file@));
    let plain_len: Option<usize> = decrypt_blocks(key, &iv, data.as_mut_slice());
    place_plaintext(file, data.as_slice(), plain_len)
}

} // verus!

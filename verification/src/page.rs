//! Pages and CRC32 checksums.
//!
//! Each [`Page`] holds a data buffer protected by a CRC32 checksum.  Page
//! capacity is configurable through [`PageConfig`].
use vstd::prelude::*;
use crate::error::StorageError;

verus! {

/// One bit of the reflected CRC-32 (IEEE, polynomial 0xEDB88320) register.
pub open spec fn crc_bit(c: u32) -> u32 {
    if c & 1u32 == 1u32 {
        (c >> 1u32) ^ 0xEDB8_8320u32
    } else {
        c >> 1u32
    }
}

/// `k` bit steps of the register.
pub open spec fn crc_bits(c: u32, k: nat) -> u32
    decreases k,
{
    if k == 0 {
        c
    } else {
        crc_bit(crc_bits(c, (k - 1) as nat))
    }
}

/// The register after feeding `data`, starting from all ones; each byte is
/// xored into the low bits and shifted through eight bit steps.
pub open spec fn crc_register(data: Seq<u8>) -> u32
    decreases data.len(),
{
    if data.len() == 0 {
        0xFFFF_FFFFu32
    } else {
        crc_bits(crc_register(data.drop_last()) ^ (data.last() as u32), 8)
    }
}

/// The CRC-32 (IEEE) checksum of a byte sequence: the final register,
/// inverted.
pub open spec fn crc32(data: Seq<u8>) -> u32 {
    crc_register(data) ^ 0xFFFF_FFFFu32
}

/// `crc32fast::hash`: the CRC-32 (IEEE) checksum of `data`.
#[verifier::external_body]
pub fn checksum(data: &[u8]) -> (r: u32)
    ensures
        r == crc32(data@),
{
    crc32fast::hash(data)
}

/// Default page size in bytes (8 KiB).
pub const DEFAULT_PAGE_SIZE: usize = 8192;

/// Configuration for page creation: the maximum data capacity per page.
#[derive(Debug, Clone, Copy)]
pub struct PageConfig {
    /// Maximum page data size in bytes.
    pub size: usize,
}

impl Default for PageConfig {
    fn default() -> (r: Self)
        ensures
            r.size == DEFAULT_PAGE_SIZE,
    {
        PageConfig { size: DEFAULT_PAGE_SIZE }
    }
}

/// A storage page with its data and checksum.
#[derive(Debug, Clone)]
pub struct Page {
    /// Page identifier.
    pub id: u64,
    /// Raw data bytes.
    pub data: Vec<u8>,
    /// CRC32 checksum of `data`.
    pub checksum: u32,
    /// Maximum capacity in bytes (informational).
    capacity: usize,
}

impl Page {
    /// The configured capacity of the page.
    pub closed spec fn spec_capacity(&self) -> usize {
        self.capacity
    }

    /// The page identifier.
    pub closed spec fn spec_id(&self) -> u64 {
        self.id
    }

    /// The page's data bytes.
    pub closed spec fn spec_data(&self) -> Seq<u8> {
        self.data@
    }

    /// The stored checksum.
    pub closed spec fn spec_checksum(&self) -> u32 {
        self.checksum
    }

    /// Create a new page using the default page size, storing the CRC32
    /// checksum of `data`.
    pub fn new(id: u64, data: Vec<u8>) -> (r: Self)
        ensures
            r.spec_id() == id,
            r.spec_data() == data@,
            r.spec_checksum() == crc32(data@),
            r.spec_capacity() == DEFAULT_PAGE_SIZE,
    {
        Self::with_config(id, data, &PageConfig::default())
    }

    /// Create a new page with a custom [`PageConfig`].  Data longer than
    /// the configured size is still accepted; the capacity is recorded for
    /// information only.
    pub fn with_config(id: u64, data: Vec<u8>, config: &PageConfig) -> (r: Self)
        ensures
            r.spec_id() == id,
            r.spec_data() == data@,
            r.spec_checksum() == crc32(data@),
            r.spec_capacity() == config.size,
    {
        let checksum = checksum(data.as_slice());
        Page { id, data, checksum, capacity: config.size }
    }

    /// Verify the checksum: `Ok` exactly when the stored checksum is the
    /// CRC32 of the data, else a checksum failure naming both values.
    pub fn verify(&self) -> (r: Result<(), StorageError>)
        ensures
            match r {
                Ok(()) => self.spec_checksum() == crc32(self.spec_data()),
                Err(StorageError::ChecksumFailure { page_id, expected, actual }) => {
                    &&& self.spec_checksum() != crc32(self.spec_data())
                    &&& page_id == self.spec_id()
                    &&& expected == self.spec_checksum()
                    &&& actual == crc32(self.spec_data())
                },
                Err(_) => false,
            },
    {
        let actual = checksum(self.data.as_slice());
        if actual == self.checksum {
            Ok(())
        } else {
            Err(StorageError::ChecksumFailure { page_id: self.id, expected: self.checksum, actual })
        }
    }

    /// The page's data bytes.
    pub fn bytes(&self) -> (r: &[u8])
        ensures
            r@ == self.spec_data(),
    {
        self.data.as_slice()
    }

    /// Return the page's configured maximum capacity in bytes.
    pub fn capacity(&self) -> (r: usize)
        ensures
            r == self.spec_capacity(),
    {
        self.capacity
    }
}

} // verus!

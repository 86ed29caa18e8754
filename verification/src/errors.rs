//! What errors say to a person.

use vstd::prelude::*;
use crate::browser_storage::StorageError;
use crate::crypto::CryptoError;
use crate::entropy::EntropyError;
use crate::machine::MachineError;
use crate::memory::{MemoryError, MAX_REGIONS};
use crate::text;
use crate::virtio::QueueError;
use crate::virtio_devices::DeviceError;

verus! {

fn pieces(a: &str, b: &str, c: &str) -> (r: String)
    ensures
        r@ == a@ + b@ + c@,
{
    let start: String = text::joined(a, b);
    text::joined(start.as_str(), c)
}

impl QueueError {
    /// The name of the variant.
    pub open spec fn name(self) -> Seq<char> {
        match self {
            QueueError::NotReady => "NotReady"@,
            QueueError::InvalidQueue => "InvalidQueue"@,
            QueueError::InvalidSize => "InvalidSize"@,
            QueueError::InvalidDescriptor => "InvalidDescriptor"@,
            QueueError::DescriptorLoop => "DescriptorLoop"@,
            QueueError::UnsupportedIndirect => "UnsupportedIndirect"@,
            QueueError::DirectionChange => "DirectionChange"@,
            QueueError::TooShort => "TooShort"@,
            QueueError::Overflow => "Overflow"@,
            QueueError::Misaligned => "Misaligned"@,
            QueueError::Memory => "Memory"@,
        }
    }

    pub(crate) fn variant(self) -> (r: &'static str)
        ensures
            r@ == self.name(),
    {
        match self {
            QueueError::NotReady => "NotReady",
            QueueError::InvalidQueue => "InvalidQueue",
            QueueError::InvalidSize => "InvalidSize",
            QueueError::InvalidDescriptor => "InvalidDescriptor",
            QueueError::DescriptorLoop => "DescriptorLoop",
            QueueError::UnsupportedIndirect => "UnsupportedIndirect",
            QueueError::DirectionChange => "DirectionChange",
            QueueError::TooShort => "TooShort",
            QueueError::Overflow => "Overflow",
            QueueError::Misaligned => "Misaligned",
            QueueError::Memory => "Memory",
        }
    }

    pub fn describe(&self) -> (r: String)
        ensures
            r@ == "invalid VirtIO queue: "@ + self.name(),
    {
        text::joined("invalid VirtIO queue: ", self.variant())
    }
}

impl CryptoError {
    /// The name of the variant.
    pub open spec fn name(self) -> Seq<char> {
        match self {
            CryptoError::InvalidHeader => "InvalidHeader"@,
            CryptoError::InvalidCiphertext => "InvalidCiphertext"@,
            CryptoError::InvalidIterations => "InvalidIterations"@,
        }
    }

    pub(crate) fn variant(self) -> (r: &'static str)
        ensures
            r@ == self.name(),
    {
        match self {
            CryptoError::InvalidHeader => "InvalidHeader",
            CryptoError::InvalidCiphertext => "InvalidCiphertext",
            CryptoError::InvalidIterations => "InvalidIterations",
        }
    }

    pub fn describe(&self) -> (r: String)
        ensures
            r@ == "encrypted file error: "@ + self.name(),
    {
        text::joined("encrypted file error: ", self.variant())
    }
}

impl DeviceError {
    pub open spec fn text(self) -> Seq<char> {
        "VirtIO device error: "@ + match self {
            DeviceError::Queue(error) => "Queue("@ + error.name() + ")"@,
            DeviceError::InvalidRequest => "InvalidRequest"@,
            DeviceError::Backend => "Backend"@,
        }
    }

    pub fn describe(&self) -> (r: String)
        ensures
            r@ == self.text(),
    {
        match self {
            DeviceError::Queue(error) => {
                let inner: String = pieces("Queue(", error.variant(), ")");
                text::joined("VirtIO device error: ", inner.as_str())
            },
            DeviceError::InvalidRequest => text::joined("VirtIO device error: ", "InvalidRequest"),
            DeviceError::Backend => text::joined("VirtIO device error: ", "Backend"),
        }
    }
}

impl StorageError {
    pub open spec fn text(self) -> Seq<char> {
        "browser storage error: "@ + match self {
            StorageError::InvalidManifest(reason) => "InvalidManifest(\""@ + reason@ + "\")"@,
            StorageError::InvalidResponse => "InvalidResponse"@,
            StorageError::UnknownRequest => "UnknownRequest"@,
            StorageError::MissingBlock(block) => "MissingBlock("@ + text::decimal(block as nat)
                + ")"@,
            StorageError::OutOfRange => "OutOfRange"@,
            StorageError::Crypto(error) => "Crypto("@ + error.name() + ")"@,
        }
    }

    pub fn describe(&self) -> (r: String)
        ensures
            r@ == self.text(),
    {
        let inner: String = match self {
            StorageError::InvalidManifest(reason) => pieces("InvalidManifest(\"", reason, "\")"),
            StorageError::InvalidResponse => String::from_str("InvalidResponse"),
            StorageError::UnknownRequest => String::from_str("UnknownRequest"),
            StorageError::MissingBlock(block) => {
                let number: String = text::decimal_text(*block as u64);
                pieces("MissingBlock(", number.as_str(), ")")
            },
            StorageError::OutOfRange => String::from_str("OutOfRange"),
            StorageError::Crypto(error) => pieces("Crypto(", error.variant(), ")"),
        };
        text::joined("browser storage error: ", inner.as_str())
    }
}

impl EntropyError {
    pub fn describe(&self) -> (r: String)
        ensures
            r@ == "host entropy source failed"@,
    {
        String::from_str("host entropy source failed")
    }
}

/// A number in hexadecimal with its prefix.
pub open spec fn prefixed(value: u64) -> Seq<char> {
    "0x"@ + text::hexadecimal(value as nat)
}

fn prefixed_text(value: u64) -> (r: String)
    ensures
        r@ == prefixed(value),
{
    let digits: String = text::hexadecimal_text(value);
    text::joined("0x", digits.as_str())
}

impl MemoryError {
    pub open spec fn text(self) -> Seq<char> {
        match self {
            MemoryError::ArenaTooLarge => "guest-memory arena exceeds 4 GiB"@,
            MemoryError::InvalidRamSize(size) => "RAM size "@ + prefixed(size)
                + " is zero or is not page aligned"@,
            MemoryError::InvalidRegion(index) => "invalid memory region "@ + text::decimal(
                index as nat,
            ),
            MemoryError::RegionLimit => "physical memory map exceeds "@ + text::decimal(
                MAX_REGIONS as nat,
            ) + " regions"@,
            MemoryError::RegionTooLarge(size) => "device region size "@ + prefixed(size)
                + " exceeds 32 bits"@,
            MemoryError::ReadOnly => "write to read-only memory"@,
            MemoryError::Unmapped(address) => "unmapped physical address "@ + prefixed(address.0),
            MemoryError::WrongRegionKind => "operation does not apply to this region"@,
        }
    }

    pub fn describe(&self) -> (r: String)
        ensures
            r@ == self.text(),
    {
        match self {
            MemoryError::ArenaTooLarge => String::from_str("guest-memory arena exceeds 4 GiB"),
            MemoryError::InvalidRamSize(size) => {
                let number: String = prefixed_text(*size);
                pieces("RAM size ", number.as_str(), " is zero or is not page aligned")
            },
            MemoryError::InvalidRegion(index) => {
                let number: String = text::decimal_text(*index as u64);
                text::joined("invalid memory region ", number.as_str())
            },
            MemoryError::RegionLimit => {
                let number: String = text::decimal_text(MAX_REGIONS as u64);
                pieces("physical memory map exceeds ", number.as_str(), " regions")
            },
            MemoryError::RegionTooLarge(size) => {
                let number: String = prefixed_text(*size);
                pieces("device region size ", number.as_str(), " exceeds 32 bits")
            },
            MemoryError::ReadOnly => String::from_str("write to read-only memory"),
            MemoryError::Unmapped(address) => {
                let number: String = prefixed_text(address.0);
                text::joined("unmapped physical address ", number.as_str())
            },
            MemoryError::WrongRegionKind => String::from_str(
                "operation does not apply to this region",
            ),
        }
    }
}

impl MachineError {
    pub open spec fn text(self) -> Seq<char> {
        match self {
            MachineError::Memory(error) => error.text(),
            MachineError::InvalidRamSize(size) => "invalid platform RAM size "@ + prefixed(size),
            MachineError::InvalidFramebuffer => "invalid framebuffer dimensions"@,
            MachineError::FirmwareTooLarge => "firmware does not fit in RAM"@,
            MachineError::FirmwareOverlapsKernel => "firmware overlaps the kernel load address"@,
            MachineError::KernelTooLarge => "kernel does not fit in RAM"@,
            MachineError::KernelOverlapsInitrd => "kernel overlaps initrd"@,
            MachineError::InitrdTooLarge => "initrd does not fit in RAM"@,
            MachineError::DeviceTreeTooLarge => "device tree does not fit in RAM"@,
            MachineError::VirtioSlotLimit => "too many `VirtIO` MMIO devices"@,
            MachineError::WrongVirtioDevice => "`VirtIO` slot has the wrong device type"@,
            MachineError::Virtio(error) => error.text(),
            MachineError::Storage(error) => error.text(),
            MachineError::Entropy(_) => "host entropy source failed"@,
        }
    }

    pub fn describe(&self) -> (r: String)
        ensures
            r@ == self.text(),
    {
        match self {
            MachineError::Memory(error) => error.describe(),
            MachineError::InvalidRamSize(size) => {
                let number: String = prefixed_text(*size);
                text::joined("invalid platform RAM size ", number.as_str())
            },
            MachineError::InvalidFramebuffer => String::from_str("invalid framebuffer dimensions"),
            MachineError::FirmwareTooLarge => String::from_str("firmware does not fit in RAM"),
            MachineError::FirmwareOverlapsKernel => String::from_str(
                "firmware overlaps the kernel load address",
            ),
            MachineError::KernelTooLarge => String::from_str("kernel does not fit in RAM"),
            MachineError::KernelOverlapsInitrd => String::from_str("kernel overlaps initrd"),
            MachineError::InitrdTooLarge => String::from_str("initrd does not fit in RAM"),
            MachineError::DeviceTreeTooLarge => String::from_str("device tree does not fit in RAM"),
            MachineError::VirtioSlotLimit => String::from_str("too many `VirtIO` MMIO devices"),
            MachineError::WrongVirtioDevice => String::from_str(
                "`VirtIO` slot has the wrong device type",
            ),
            MachineError::Virtio(error) => error.describe(),
            MachineError::Storage(error) => error.describe(),
            MachineError::Entropy(error) => error.describe(),
        }
    }
}

} // verus!

//! PCI devices: naming what the configuration space says is there.
//!
//! HALCYON drives none of these devices -- this is here so the machine can
//! tell you what it is made of. Reading the configuration ports is the
//! caller's part; `probe` decodes the two words it reads.

use vstd::prelude::*;

verus! {

use crate::text::{push_hex, push_dec, push_str, string_of, hex_fixed, dec_str};

#[derive(Clone, Copy, Debug, PartialEq, Eq, Structural)]
pub struct Device {
    pub bus: u8,
    pub device: u8,
    pub function: u8,
    pub vendor: u16,
    pub id: u16,
    pub class: u8,
    pub subclass: u8,
    pub prog_if: u8,
    pub revision: u8,
}

/// The name of a class and subclass.
pub open spec fn class_text(class: u8, subclass: u8) -> Seq<char> {
    if class == 0x00 { "unclassified"@ }
    else if class == 0x01 && subclass == 0x01 { "IDE controller"@ }
    else if class == 0x01 && subclass == 0x06 { "SATA controller"@ }
    else if class == 0x01 && subclass == 0x08 { "NVMe controller"@ }
    else if class == 0x01 { "storage controller"@ }
    else if class == 0x02 { "network controller"@ }
    else if class == 0x03 { "display controller"@ }
    else if class == 0x04 && subclass == 0x03 { "audio device"@ }
    else if class == 0x04 { "multimedia device"@ }
    else if class == 0x05 { "memory controller"@ }
    else if class == 0x06 && subclass == 0x00 { "host bridge"@ }
    else if class == 0x06 && subclass == 0x01 { "ISA bridge"@ }
    else if class == 0x06 && subclass == 0x04 { "PCI-to-PCI bridge"@ }
    else if class == 0x06 { "bridge"@ }
    else if class == 0x07 { "communication controller"@ }
    else if class == 0x08 { "system peripheral"@ }
    else if class == 0x09 { "input device"@ }
    else if class == 0x0C && subclass == 0x03 { "USB controller"@ }
    else if class == 0x0C { "serial bus controller"@ }
    else if class == 0x0D { "wireless controller"@ }
    else { "device"@ }
}

/// Vendors common enough to be worth naming; empty for the rest.
pub open spec fn vendor_text(vendor: u16) -> Seq<char> {
    if vendor == 0x8086 { "Intel"@ }
    else if vendor == 0x1022 || vendor == 0x1002 { "AMD"@ }
    else if vendor == 0x10DE { "NVIDIA"@ }
    else if vendor == 0x1234 { "QEMU"@ }
    else if vendor == 0x1AF4 { "Red Hat / virtio"@ }
    else if vendor == 0x15AD { "VMware"@ }
    else if vendor == 0x80EE { "VirtualBox"@ }
    else if vendor == 0x14E4 { "Broadcom"@ }
    else if vendor == 0x10EC { "Realtek"@ }
    else if vendor == 0x168C { "Qualcomm Atheros"@ }
    else if vendor == 0x1969 { "Attansic"@ }
    else if vendor == 0x1106 { "VIA"@ }
    else if vendor == 0x1039 { "SiS"@ }
    else { ""@ }
}

/// The line `describe` prints: `bb:dd.f  vvvv:iiii  [vendor ]class`.
pub open spec fn description(d: Device) -> Seq<char> {
    let head = hex_fixed(d.bus as nat, 2) + ":"@ + hex_fixed(d.device as nat, 2) + "."@ + dec_str(d.function as nat)
        + "  "@ + hex_fixed(d.vendor as nat, 4) + ":"@ + hex_fixed(d.id as nat, 4) + "  "@;
    if vendor_text(d.vendor).len() == 0 {
        head + class_text(d.class, d.subclass)
    } else {
        head + vendor_text(d.vendor) + " "@ + class_text(d.class, d.subclass)
    }
}

impl Device {
    pub fn class_name(&self) -> (r: &'static str)
        ensures
            r@ == class_text(self.class, self.subclass),
    {
        match (self.class, self.subclass) {
            (0x00, _) => "unclassified",
            (0x01, 0x01) => "IDE controller",
            (0x01, 0x06) => "SATA controller",
            (0x01, 0x08) => "NVMe controller",
            (0x01, _) => "storage controller",
            (0x02, _) => "network controller",
            (0x03, _) => "display controller",
            (0x04, 0x03) => "audio device",
            (0x04, _) => "multimedia device",
            (0x05, _) => "memory controller",
            (0x06, 0x00) => "host bridge",
            (0x06, 0x01) => "ISA bridge",
            (0x06, 0x04) => "PCI-to-PCI bridge",
            (0x06, _) => "bridge",
            (0x07, _) => "communication controller",
            (0x08, _) => "system peripheral",
            (0x09, _) => "input device",
            (0x0C, 0x03) => "USB controller",
            (0x0C, _) => "serial bus controller",
            (0x0D, _) => "wireless controller",
            _ => "device",
        }
    }

    /// Vendors common enough to be worth naming.
    pub fn vendor_name(&self) -> (r: &'static str)
        ensures
            r@ == vendor_text(self.vendor),
    {
        match self.vendor {
            0x8086 => "Intel",
            0x1022 | 0x1002 => "AMD",
            0x10DE => "NVIDIA",
            0x1234 => "QEMU",
            0x1AF4 => "Red Hat / virtio",
            0x15AD => "VMware",
            0x80EE => "VirtualBox",
            0x14E4 => "Broadcom",
            0x10EC => "Realtek",
            0x168C => "Qualcomm Atheros",
            0x1969 => "Attansic",
            0x1106 => "VIA",
            0x1039 => "SiS",
            _ => "",
        }
    }

    /// One line naming the device and where it sits.
    pub fn describe(&self) -> (r: String)
        ensures
            r@ == description(*self),
    {
        let vendor = self.vendor_name();
        let mut out: Vec<char> = Vec::new();
        push_hex(&mut out, self.bus as u64, 2);
        push_str(&mut out, ":");
        push_hex(&mut out, self.device as u64, 2);
        push_str(&mut out, ".");
        push_dec(&mut out, self.function as u64);
        push_str(&mut out, "  ");
        push_hex(&mut out, self.vendor as u64, 4);
        push_str(&mut out, ":");
        push_hex(&mut out, self.id as u64, 4);
        push_str(&mut out, "  ");
        if vendor.unicode_len() != 0 {
            push_str(&mut out, vendor);
            push_str(&mut out, " ");
        }
        push_str(&mut out, self.class_name());
        proof {
            let d = *self;
            let head = hex_fixed(d.bus as nat, 2) + ":"@ + hex_fixed(d.device as nat, 2) + "."@ + dec_str(d.function as nat)
                + "  "@ + hex_fixed(d.vendor as nat, 4) + ":"@ + hex_fixed(d.id as nat, 4) + "  "@;
            if vendor@.len() == 0 {
                assert(out@ =~= head + class_text(d.class, d.subclass));
            } else {
                assert(out@ =~= head + vendor_text(d.vendor) + " "@ + class_text(d.class, d.subclass));
            }
        }
        string_of(out.as_slice())
    }
}

/// The device at bus/device/function, from the identity word (offset 0)
/// and class word (offset 8) of its configuration space. A vendor of
/// 0xFFFF means nothing answers there.
pub fn probe(bus: u8, device: u8, function: u8, identity: u32, classes: u32) -> (r: Option<Device>)
    ensures
        (identity % 0x10000 == 0xFFFF) <==> r is None,
        r matches Some(d) ==> {
            &&& d.bus == bus && d.device == device && d.function == function
            &&& d.vendor == identity % 0x10000
            &&& d.id == identity / 0x10000
            &&& d.class == classes / 0x100_0000
            &&& d.subclass == (classes / 0x1_0000) % 0x100
            &&& d.prog_if == (classes / 0x100) % 0x100
            &&& d.revision == classes % 0x100
        },
{
    let vendor = (identity & 0xFFFF) as u16;
    proof {
        assert(identity & 0xFFFF == identity % 0x10000) by (bit_vector);
        assert((identity >> 16) as u16 == identity / 0x10000) by (bit_vector);
        assert((classes >> 24) as u8 == classes / 0x100_0000) by (bit_vector);
        assert((classes >> 16) as u8 == (classes / 0x1_0000) % 0x100) by (bit_vector);
        assert((classes >> 8) as u8 == (classes / 0x100) % 0x100) by (bit_vector);
        assert(classes as u8 == classes % 0x100) by (bit_vector);
    }
    if vendor == 0xFFFF {
        return None;
    }
    Some(Device {
        bus,
        device,
        function,
        vendor,
        id: (identity >> 16) as u16,
        class: (classes >> 24) as u8,
        subclass: (classes >> 16) as u8,
        prog_if: (classes >> 8) as u8,
        revision: classes as u8,
    })
}

/// The header-type word (offset 0x0C) marks a multi-function device in
/// bit 7 of its third byte.
pub fn is_multifunction(header_word: u32) -> (r: bool)
    ensures
        r == ((header_word / 0x1_0000) % 0x100 >= 0x80),
{
    let header_type = (header_word >> 16) as u8;
    proof {
        assert((header_word >> 16) as u8 == (header_word / 0x1_0000) % 0x100) by (bit_vector);
        assert(header_type & 0x80 != 0 <==> header_type >= 0x80) by (bit_vector);
    }
    header_type & 0x80 != 0
}

} // verus!

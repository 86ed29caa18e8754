//! Flattened device-tree construction for the virtual platform.

use vstd::prelude::*;
use vstd::string::StringExecFns;
use crate::bytes;
use crate::text;

verus! {

pub const MAGIC: u32 = 0xd00d_feed;
pub const BEGIN_NODE: u32 = 1;
pub const END_NODE: u32 = 2;
pub const PROP: u32 = 3;
pub const END: u32 = 9;

#[derive(Clone, Copy, Debug, PartialEq, Eq, Structural)]
pub struct FramebufferDescription {
    pub size: u32,
    pub width: u32,
    pub height: u32,
    pub stride: u32,
}

#[derive(Clone, Copy, Debug, PartialEq, Eq)]
pub struct FdtConfig<'a> {
    pub ram_size: u64,
    pub command_line: &'a str,
    pub initrd: Option<(u64, u64)>,
    pub virtio_count: u8,
    pub rng_seed: Option<&'a [u8]>,
    pub framebuffer: Option<FramebufferDescription>,
}

/// The model of what a device tree describes.
pub struct FdtModel {
    pub ram_size: u64,
    pub command_line: Seq<char>,
    pub initrd: Option<(u64, u64)>,
    pub virtio_count: u8,
    pub rng_seed: Option<Seq<u8>>,
    pub framebuffer: Option<FramebufferDescription>,
}

impl<'a> View for FdtConfig<'a> {
    type V = FdtModel;

    open spec fn view(&self) -> FdtModel {
        FdtModel {
            ram_size: self.ram_size,
            command_line: self.command_line@,
            initrd: self.initrd,
            virtio_count: self.virtio_count,
            rng_seed: match self.rng_seed {
                Some(seed) => Some(seed@),
                None => None,
            },
            framebuffer: self.framebuffer,
        }
    }
}

/// A number as four bytes, most significant first.
pub open spec fn word_bytes(value: u32) -> Seq<u8> {
    seq![
        (value / 0x100_0000) as u8,
        (value / 0x1_0000 % 0x100) as u8,
        (value / 0x100 % 0x100) as u8,
        (value % 0x100) as u8,
    ]
}

/// Numbers one after another.
pub open spec fn cell_bytes(cells: Seq<u32>) -> Seq<u8>
    decreases cells.len(),
{
    if cells.len() == 0 {
        Seq::empty()
    } else {
        cell_bytes(cells.drop_last()) + word_bytes(cells.last())
    }
}

/// A text with its terminator.
pub open spec fn string_bytes(value: Seq<char>) -> Seq<u8> {
    vstd::utf8::encode_utf8(value).push(0)
}

/// Two numbers of two cells each.
pub open spec fn pair_cells(first: u64, second: u64) -> Seq<u32> {
    seq![
        bytes::high_half(first),
        bytes::low_half(first),
        bytes::high_half(second),
        bytes::low_half(second),
    ]
}

/// Bytes with zeros behind them, up to a multiple of four.
pub open spec fn aligned(data: Seq<u8>) -> Seq<u8> {
    data + Seq::new(((4 - data.len() % 4) % 4) as nat, |i: int| 0u8)
}

/// The place of the first terminator from `start` on.
pub open spec fn name_end(strings: Seq<u8>, start: int) -> int
    decreases strings.len() - start,
{
    if start < 0 || start >= strings.len() || strings[start] == 0 {
        start
    } else {
        name_end(strings, start + 1)
    }
}

/// The place of a name in a table of names from `start` on, or the end of the
/// table.
pub open spec fn name_place(strings: Seq<u8>, start: int, name: Seq<u8>) -> int
    decreases strings.len() - start,
{
    let end = name_end(strings, start);
    if !(0 <= start <= end <= strings.len()) || start == strings.len() {
        strings.len() as int
    } else if strings.subrange(start, end) == name {
        start
    } else if end == strings.len() {
        end
    } else {
        name_place(strings, end + 1, name)
    }
}

/// A device tree under construction: its structure and the names in it.
#[verifier::ext_equal]
pub struct BuilderModel {
    pub structure: Seq<u8>,
    pub strings: Seq<u8>,
}

impl BuilderModel {
    pub open spec fn empty() -> BuilderModel {
        BuilderModel { structure: Seq::empty(), strings: Seq::empty() }
    }

    pub open spec fn word(self, value: u32) -> BuilderModel {
        BuilderModel { structure: self.structure + word_bytes(value), ..self }
    }

    pub open spec fn data(self, value: Seq<u8>) -> BuilderModel {
        BuilderModel { structure: aligned(self.structure + value), ..self }
    }

    /// Opens a node.
    pub open spec fn node(self, name: Seq<char>) -> BuilderModel {
        self.word(BEGIN_NODE).data(string_bytes(name))
    }

    /// Closes a node.
    pub open spec fn end_node(self) -> BuilderModel {
        self.word(END_NODE)
    }

    /// Adds a name to the table, unless it is there.
    pub open spec fn named(self, name: Seq<char>) -> BuilderModel {
        if name_place(self.strings, 0, vstd::utf8::encode_utf8(name)) < self.strings.len() {
            self
        } else {
            BuilderModel { strings: self.strings + string_bytes(name), ..self }
        }
    }

    /// Adds a property to the open node.
    pub open spec fn property(self, name: Seq<char>, value: Seq<u8>) -> BuilderModel {
        self.named(name).word(PROP).word(value.len() as u32).word(
            name_place(self.strings, 0, vstd::utf8::encode_utf8(name)) as u32,
        ).data(value)
    }

    pub open spec fn number(self, name: Seq<char>, value: u32) -> BuilderModel {
        self.property(name, word_bytes(value))
    }

    pub open spec fn cells(self, name: Seq<char>, cells: Seq<u32>) -> BuilderModel {
        self.property(name, cell_bytes(cells))
    }

    pub open spec fn pair(self, name: Seq<char>, first: u64, second: u64) -> BuilderModel {
        self.cells(name, pair_cells(first, second))
    }

    pub open spec fn string(self, name: Seq<char>, value: Seq<char>) -> BuilderModel {
        self.property(name, string_bytes(value))
    }

    /// The size of the finished tree.
    pub open spec fn size(self) -> nat {
        let total = 56 + self.word(END).structure.len() + self.strings.len();
        (total + (8 - total % 8) % 8) as nat
    }

    /// The finished tree: a header, an empty reservation list, the structure
    /// and the names, padded to a multiple of eight bytes.
    pub open spec fn finished(self) -> Seq<u8> {
        let whole = self.word(END);
        let s = whole.structure.len();
        let t = whole.strings.len();
        let header = cell_bytes(
            seq![
                MAGIC,
                self.size() as u32,
                56,
                (56 + s) as u32,
                40,
                17,
                16,
                0,
                t as u32,
                s as u32,
            ],
        );
        header + Seq::new(16, |i: int| 0u8) + whole.structure + whole.strings + Seq::new(
            (self.size() - 56 - s - t) as nat,
            |i: int| 0u8,
        )
    }
}

struct Builder {
    structure: Vec<u8>,
    strings: Vec<u8>,
}

impl View for Builder {
    type V = BuilderModel;

    closed spec fn view(&self) -> BuilderModel {
        BuilderModel { structure: self.structure@, strings: self.strings@ }
    }
}

fn word_of(value: u32) -> (r: Vec<u8>)
    ensures
        r@ == word_bytes(value),
{
    let mut out: Vec<u8> = Vec::new();
    out.push((value / 0x100_0000) as u8);
    out.push((value / 0x1_0000 % 0x100) as u8);
    out.push((value / 0x100 % 0x100) as u8);
    out.push((value % 0x100) as u8);
    assert(out@ =~= word_bytes(value));
    out
}

fn cells_of(cells: &[u32]) -> (r: Vec<u8>)
    ensures
        r@ == cell_bytes(cells@),
{
    let mut out: Vec<u8> = Vec::new();
    let mut i: usize = 0;
    assert(cells@.take(0) =~= Seq::empty());
    while i < cells.len()
        invariant
            i <= cells.len(),
            out@ == cell_bytes(cells@.take(i as int)),
        decreases cells.len() - i,
    {
        let mut word: Vec<u8> = word_of(cells[i]);
        out.append(&mut word);
        assert(cells@.take(i + 1).drop_last() =~= cells@.take(i as int));
        i = i + 1;
    }
    assert(cells@.take(i as int) =~= cells@);
    out
}

fn string_of(value: &str) -> (r: Vec<u8>)
    ensures
        r@ == string_bytes(value@),
{
    let mut out: Vec<u8> = text::bytes_of(value);
    out.push(0);
    out
}

impl Builder {
    fn new() -> (r: Self)
        ensures
            r@ == BuilderModel::empty(),
    {
        Builder { structure: Vec::new(), strings: Vec::new() }
    }

    fn word(&mut self, value: u32)
        ensures
            final(self)@ == old(self)@.word(value),
    {
        let mut word: Vec<u8> = word_of(value);
        self.structure.append(&mut word);
    }

    fn data(&mut self, value: &[u8])
        ensures
            final(self)@ == old(self)@.data(value@),
    {
        self.structure.extend_from_slice(value);
        let ghost start = self.structure@;
        let padding: usize = (4 - self.structure.len() % 4) % 4;
        let mut zeros: Vec<u8> = bytes::zeros(padding);
        self.structure.append(&mut zeros);
        assert(self.structure@ =~= aligned(start));
    }

    fn node(&mut self, name: &str)
        ensures
            final(self)@ == old(self)@.node(name@),
    {
        self.word(BEGIN_NODE);
        let name: Vec<u8> = string_of(name);
        self.data(name.as_slice());
    }

    fn end_node(&mut self)
        ensures
            final(self)@ == old(self)@.end_node(),
    {
        self.word(END_NODE);
    }

    fn string_offset(&mut self, name: &str) -> (r: usize)
        ensures
            final(self)@ == old(self)@.named(name@),
            r == name_place(old(self)@.strings, 0, vstd::utf8::encode_utf8(name@)),
    {
        let name_bytes: &[u8] = name.as_bytes();
        let mut start: usize = 0;
        while start < self.strings.len()
            invariant
                self@ == old(self)@,
                name_bytes@ == vstd::utf8::encode_utf8(name@),
                start <= self.strings@.len(),
                name_place(self.strings@, start as int, name_bytes@) == name_place(
                    old(self)@.strings,
                    0,
                    name_bytes@,
                ),
            decreases self.strings@.len() - start,
        {
            let mut end: usize = start;
            while end < self.strings.len() && self.strings[end] != 0
                invariant
                    self@ == old(self)@,
                    start <= end <= self.strings@.len(),
                    name_end(self.strings@, end as int) == name_end(self.strings@, start as int),
                decreases self.strings@.len() - end,
            {
                end = end + 1;
            }
            let found: Vec<u8> = bytes::copy_range(self.strings.as_slice(), start, end - start);
            if bytes::same(found.as_slice(), name_bytes) {
                return start;
            }
            start = if end == self.strings.len() {
                end
            } else {
                end + 1
            };
        }
        let offset: usize = self.strings.len();
        let mut added: Vec<u8> = string_of(name);
        self.strings.append(&mut added);
        offset
    }

    fn property(&mut self, name: &str, value: &[u8])
        ensures
            final(self)@ == old(self)@.property(name@, value@),
    {
        let offset: usize = self.string_offset(name);
        self.word(PROP);
        self.word(value.len() as u32);
        self.word(offset as u32);
        self.data(value);
    }

    fn property_u32(&mut self, name: &str, value: u32)
        ensures
            final(self)@ == old(self)@.number(name@, value),
    {
        let word: Vec<u8> = word_of(value);
        self.property(name, word.as_slice());
    }

    fn property_cells(&mut self, name: &str, cells: &[u32])
        ensures
            final(self)@ == old(self)@.cells(name@, cells@),
    {
        let data: Vec<u8> = cells_of(cells);
        self.property(name, data.as_slice());
    }

    fn property_u64_pair(&mut self, name: &str, first: u64, second: u64)
        ensures
            final(self)@ == old(self)@.pair(name@, first, second),
    {
        let cells: Vec<u32> = vec![
            bytes::high_u32(first),
            bytes::low_u32(first),
            bytes::high_u32(second),
            bytes::low_u32(second),
        ];
        assert(cells@ =~= pair_cells(first, second));
        self.property_cells(name, cells.as_slice());
    }

    fn property_string(&mut self, name: &str, value: &str)
        ensures
            final(self)@ == old(self)@.string(name@, value@),
    {
        let data: Vec<u8> = string_of(value);
        self.property(name, data.as_slice());
    }
}

impl BuilderModel {
    /// Describes the processor.
    pub open spec fn cpu_nodes(self) -> BuilderModel {
        self
            .node("cpus"@)
            .number("#address-cells"@, 1)
            .number("#size-cells"@, 0)
            .number("timebase-frequency"@, 10_000_000)
            .node("cpu@0"@)
            .string("device_type"@, "cpu"@)
            .number("reg"@, 0)
            .string("status"@, "okay"@)
            .string("compatible"@, "riscv"@)
            .string("riscv,isa"@, "rv64imafdcb_zicbom_zicbop_zicboz_ziccamoa_ziccif_zicclsm_ziccrse_zicntr_zicond_zicsr_zifencei_zihintntl_zihintpause_zihpm_zimop_za64rs_zawrs_zcb_zcmop_zba_zbb_zbs_ssccptr_sscounterenw_sstc_sstvala_sstvecd_ssu64xl_svadu_svinval_svnapot_svpbmt"@)
            .string("riscv,isa-base"@, "rv64i"@)
            .string("riscv,isa-extensions"@, "i\0m\0a\0f\0d\0c\0b\0zicbom\0zicbop\0zicboz\0ziccamoa\0ziccif\0zicclsm\0ziccrse\0zicntr\0zicond\0zicsr\0zifencei\0zihintntl\0zihintpause\0zihpm\0zimop\0za64rs\0zawrs\0zcb\0zcmop\0zba\0zbb\0zbs\0ssccptr\0sscounterenw\0sstc\0sstvala\0sstvecd\0ssu64xl\0svadu\0svinval\0svnapot\0svpbmt"@)
            .number("riscv,cbom-block-size"@, 64)
            .number("riscv,cbop-block-size"@, 64)
            .number("riscv,cboz-block-size"@, 64)
            .string("mmu-type"@, "riscv,sv39"@)
            .number("clock-frequency"@, 2_000_000_000)
            .number("phandle"@, 1)
            .node("interrupt-controller"@)
            .number("#interrupt-cells"@, 1)
            .property("interrupt-controller"@, Seq::empty())
            .string("compatible"@, "riscv,cpu-intc"@)
            .number("phandle"@, 2)
            .end_node()
            .end_node()
            .node("cpu-map"@)
            .node("cluster0"@)
            .node("core0"@)
            .number("cpu"@, 1)
            .end_node()
            .end_node()
            .end_node()
            .end_node()
    }
}

fn add_cpu_nodes(fdt: &mut Builder)
    ensures
        final(fdt)@ == old(fdt)@.cpu_nodes(),
{
    let none: Vec<u8> = Vec::new();
    assert(none@ =~= Seq::empty());

    fdt.node("cpus");
    fdt.property_u32("#address-cells", 1);
    fdt.property_u32("#size-cells", 0);
    fdt.property_u32("timebase-frequency", 10_000_000);
    fdt.node("cpu@0");
    fdt.property_string("device_type", "cpu");
    fdt.property_u32("reg", 0);
    fdt.property_string("status", "okay");
    fdt.property_string("compatible", "riscv");
    fdt.property_string("riscv,isa", "rv64imafdcb_zicbom_zicbop_zicboz_ziccamoa_ziccif_zicclsm_ziccrse_zicntr_zicond_zicsr_zifencei_zihintntl_zihintpause_zihpm_zimop_za64rs_zawrs_zcb_zcmop_zba_zbb_zbs_ssccptr_sscounterenw_sstc_sstvala_sstvecd_ssu64xl_svadu_svinval_svnapot_svpbmt");
    fdt.property_string("riscv,isa-base", "rv64i");
    fdt.property_string("riscv,isa-extensions", "i\0m\0a\0f\0d\0c\0b\0zicbom\0zicbop\0zicboz\0ziccamoa\0ziccif\0zicclsm\0ziccrse\0zicntr\0zicond\0zicsr\0zifencei\0zihintntl\0zihintpause\0zihpm\0zimop\0za64rs\0zawrs\0zcb\0zcmop\0zba\0zbb\0zbs\0ssccptr\0sscounterenw\0sstc\0sstvala\0sstvecd\0ssu64xl\0svadu\0svinval\0svnapot\0svpbmt");
    fdt.property_u32("riscv,cbom-block-size", 64);
    fdt.property_u32("riscv,cbop-block-size", 64);
    fdt.property_u32("riscv,cboz-block-size", 64);
    fdt.property_string("mmu-type", "riscv,sv39");
    fdt.property_u32("clock-frequency", 2_000_000_000);
    fdt.property_u32("phandle", 1);
    fdt.node("interrupt-controller");
    fdt.property_u32("#interrupt-cells", 1);
    fdt.property("interrupt-controller", none.as_slice());
    fdt.property_string("compatible", "riscv,cpu-intc");
    fdt.property_u32("phandle", 2);
    fdt.end_node();
    fdt.end_node();
    fdt.node("cpu-map");
    fdt.node("cluster0");
    fdt.node("core0");
    fdt.property_u32("cpu", 1);
    fdt.end_node();
    fdt.end_node();
    fdt.end_node();
    fdt.end_node();
}

impl BuilderModel {
    /// Describes the interrupt controllers, the clock and the serial port.
    pub open spec fn interrupt_devices(self) -> BuilderModel {
        self
            .node("clint@2000000"@)
            .string("compatible"@, "sifive,clint0\0riscv,clint0"@)
            .cells("interrupts-extended"@, seq![2u32, 3, 2, 7])
            .pair("reg"@, 0x200_0000, 0x1_0000)
            .end_node()
            .node("interrupt-controller@c000000"@)
            .number("#interrupt-cells"@, 1)
            .property("interrupt-controller"@, Seq::empty())
            .string("compatible"@, "sifive,plic-1.0.0\0riscv,plic0"@)
            .number("riscv,ndev"@, 31)
            .pair("reg"@, 0xc00_0000, 0x400_0000)
            .cells("interrupts-extended"@, seq![2u32, 11, 2, 9])
            .number("phandle"@, 4)
            .end_node()
            .node("rtc@101000"@)
            .string("compatible"@, "google,goldfish-rtc"@)
            .pair("reg"@, 0x10_1000, 0x1000)
            .cells("interrupts-extended"@, seq![4u32, 11])
            .end_node()
            .node("serial@10000000"@)
            .string("compatible"@, "ns16550a"@)
            .pair("reg"@, 0x1000_0000, 0x100)
            .cells("interrupts-extended"@, seq![4u32, 10])
            .number("clock-frequency"@, 3_686_400)
            .end_node()
    }
}

fn add_interrupt_devices(fdt: &mut Builder)
    ensures
        final(fdt)@ == old(fdt)@.interrupt_devices(),
{
    let none: Vec<u8> = Vec::new();
    assert(none@ =~= Seq::empty());
    assert([2u32, 11, 2, 9]@ =~= seq![2u32, 11, 2, 9]);
    assert([2u32, 3, 2, 7]@ =~= seq![2u32, 3, 2, 7]);
    assert([4u32, 10]@ =~= seq![4u32, 10]);
    assert([4u32, 11]@ =~= seq![4u32, 11]);
    fdt.node("clint@2000000");
    fdt.property_string("compatible", "sifive,clint0\0riscv,clint0");
    fdt.property_cells("interrupts-extended", [2, 3, 2, 7].as_slice());
    fdt.property_u64_pair("reg", 0x200_0000, 0x1_0000);
    fdt.end_node();
    fdt.node("interrupt-controller@c000000");
    fdt.property_u32("#interrupt-cells", 1);
    fdt.property("interrupt-controller", none.as_slice());
    fdt.property_string("compatible", "sifive,plic-1.0.0\0riscv,plic0");
    fdt.property_u32("riscv,ndev", 31);
    fdt.property_u64_pair("reg", 0xc00_0000, 0x400_0000);
    fdt.property_cells("interrupts-extended", [2, 11, 2, 9].as_slice());
    fdt.property_u32("phandle", 4);
    fdt.end_node();
    fdt.node("rtc@101000");
    fdt.property_string("compatible", "google,goldfish-rtc");
    fdt.property_u64_pair("reg", 0x10_1000, 0x1000);
    fdt.property_cells("interrupts-extended", [4, 11].as_slice());
    fdt.end_node();
    fdt.node("serial@10000000");
    fdt.property_string("compatible", "ns16550a");
    fdt.property_u64_pair("reg", 0x1000_0000, 0x100);
    fdt.property_cells("interrupts-extended", [4, 10].as_slice());
    fdt.property_u32("clock-frequency", 3_686_400);
    fdt.end_node();
}

/// The interrupt of a VirtIO device; two lines belong to other devices.
pub open spec fn device_irq(index: nat) -> nat {
    if 1 + index >= 10 {
        index + 3
    } else {
        index + 1
    }
}

impl BuilderModel {
    /// Describes the VirtIO devices from `index` to `count`.
    pub open spec fn virtio_nodes(self, index: nat, count: nat) -> BuilderModel
        decreases count - index,
    {
        let address = (0x1000_1000 + index * 0x1000) as u64;
        if index >= count {
            self
        } else {
            self
                .node("virtio@"@ + text::hexadecimal(address as nat))
                .string("compatible"@, "virtio,mmio"@)
                .pair("reg"@, address, 0x1000)
                .cells("interrupts-extended"@, seq![4u32, device_irq(index) as u32])
                .end_node()
                .virtio_nodes(index + 1, count)
        }
    }

    /// Describes the display, if there is one.
    pub open spec fn framebuffer_node(self, framebuffer: Option<FramebufferDescription>) -> BuilderModel {
        match framebuffer {
            None => self,
            Some(framebuffer) => self
                .node("framebuffer@4100000"@)
                .string("compatible"@, "simple-framebuffer"@)
                .pair("reg"@, 0x410_0000, framebuffer.size as u64)
                .number("width"@, framebuffer.width)
                .number("height"@, framebuffer.height)
                .number("stride"@, framebuffer.stride)
                .string("format"@, "a8r8g8b8"@)
                .end_node(),
        }
    }

    /// Describes what the firmware is told about this boot.
    pub open spec fn chosen_node(self, config: FdtModel) -> BuilderModel {
        let base = self
            .node("chosen"@)
            .string("bootargs"@, config.command_line)
            .string("stdout-path"@, "/soc/serial@10000000"@);
        let initrd = match config.initrd {
            None => base,
            Some((start, size)) => {
                let end = if start + size > u64::MAX {
                    u64::MAX
                } else {
                    (start + size) as u64
                };
                base
                    .cells(
                        "linux,initrd-start"@,
                        seq![bytes::high_half(start), bytes::low_half(start)],
                    )
                    .cells(
                        "linux,initrd-end"@,
                        seq![bytes::high_half(end), bytes::low_half(end)],
                    )
            },
        };
        match config.rng_seed {
            None => initrd,
            Some(seed) => initrd.property("rng-seed"@, seed),
        }.end_node()
    }

    /// The tree of a platform.
    #[verifier::opaque]
    pub open spec fn tree(config: FdtModel) -> BuilderModel {
        BuilderModel::empty()
            .node(""@)
            .number("#address-cells"@, 2)
            .number("#size-cells"@, 2)
            .string("compatible"@, "riscv-virtio"@)
            .string("model"@, "riscv-virtio,qemu"@)
            .cpu_nodes()
            .node("memory@80000000"@)
            .string("device_type"@, "memory"@)
            .pair("reg"@, 0x8000_0000, config.ram_size)
            .end_node()
            .node("soc"@)
            .number("#address-cells"@, 2)
            .number("#size-cells"@, 2)
            .string("compatible"@, "simple-bus"@)
            .property("ranges"@, Seq::empty())
            .node("syscon@100000"@)
            .string("compatible"@, "sifive,test1\0sifive,test0\0syscon"@)
            .pair("reg"@, 0x10_0000, 0x1000)
            .number("phandle"@, 3)
            .end_node()
            .interrupt_devices()
            .virtio_nodes(0, config.virtio_count as nat)
            .framebuffer_node(config.framebuffer)
            .end_node()
            .node("poweroff"@)
            .string("compatible"@, "syscon-poweroff"@)
            .number("regmap"@, 3)
            .number("offset"@, 0)
            .number("value"@, 0x5555)
            .end_node()
            .chosen_node(config)
            .end_node()
    }
}

fn add_virtio_nodes(fdt: &mut Builder, count: u8)
    ensures
        final(fdt)@ == old(fdt)@.virtio_nodes(0, count as nat),
{
    let mut index: u8 = 0;
    let ghost whole = fdt@.virtio_nodes(0, count as nat);
    while index < count
        invariant
            index <= count,
            whole == old(fdt)@.virtio_nodes(0, count as nat),
            whole == fdt@.virtio_nodes(index as nat, count as nat),
        decreases count - index,
    {
        let address: u64 = 0x1000_1000 + index as u64 * 0x1000;
        let number: String = text::hexadecimal_text(address);
        let name: String = text::joined("virtio@", number.as_str());
        fdt.node(name.as_str());
        fdt.property_string("compatible", "virtio,mmio");
        fdt.property_u64_pair("reg", address, 0x1000);
        let irq: u32 = virtio_irq(index);
        assert([4u32, irq]@ =~= seq![4u32, irq]);
        fdt.property_cells("interrupts-extended", [4, irq].as_slice());
        fdt.end_node();
        index = index + 1;
    }
}

fn virtio_irq(index: u8) -> (r: u32)
    ensures
        r == device_irq(index as nat),
{
    let irq: u32 = 1 + index as u32;
    if irq >= 10 {
        irq + 2
    } else {
        irq
    }
}

fn add_framebuffer_node(fdt: &mut Builder, framebuffer: Option<FramebufferDescription>)
    ensures
        final(fdt)@ == old(fdt)@.framebuffer_node(framebuffer),
{
    match framebuffer {
        None => {},
        Some(framebuffer) => {
            fdt.node("framebuffer@4100000");
            fdt.property_string("compatible", "simple-framebuffer");
            fdt.property_u64_pair("reg", 0x410_0000, framebuffer.size as u64);
            fdt.property_u32("width", framebuffer.width);
            fdt.property_u32("height", framebuffer.height);
            fdt.property_u32("stride", framebuffer.stride);
            fdt.property_string("format", "a8r8g8b8");
            fdt.end_node();
        },
    }
}

fn add_address(fdt: &mut Builder, name: &str, address: u64)
    ensures
        final(fdt)@ == old(fdt)@.cells(
            name@,
            seq![bytes::high_half(address), bytes::low_half(address)],
        ),
{
    let high: u32 = bytes::high_u32(address);
    let low: u32 = bytes::low_u32(address);
    assert([high, low]@ =~= seq![high, low]);
    fdt.property_cells(name, [high, low].as_slice());
}

fn add_chosen_node(fdt: &mut Builder, config: FdtConfig<'_>)
    ensures
        final(fdt)@ == old(fdt)@.chosen_node(config@),
{
    fdt.node("chosen");
    fdt.property_string("bootargs", config.command_line);
    fdt.property_string("stdout-path", "/soc/serial@10000000");
    match config.initrd {
        None => {},
        Some((start, size)) => {
            add_address(fdt, "linux,initrd-start", start);
            add_address(fdt, "linux,initrd-end", start.saturating_add(size));
        },
    }
    match config.rng_seed {
        None => {},
        Some(seed) => {
            fdt.property("rng-seed", seed);
        },
    }
    fdt.end_node();
}

fn describe(config: FdtConfig<'_>) -> (r: Builder)
    ensures
        r@ == BuilderModel::tree(config@),
{
    reveal(BuilderModel::tree);
    let none: Vec<u8> = Vec::new();
    assert(none@ =~= Seq::empty());
    let mut fdt: Builder = Builder::new();
    fdt.node("");
    fdt.property_u32("#address-cells", 2);
    fdt.property_u32("#size-cells", 2);
    fdt.property_string("compatible", "riscv-virtio");
    fdt.property_string("model", "riscv-virtio,qemu");
    add_cpu_nodes(&mut fdt);
    fdt.node("memory@80000000");
    fdt.property_string("device_type", "memory");
    fdt.property_u64_pair("reg", 0x8000_0000, config.ram_size);
    fdt.end_node();
    fdt.node("soc");
    fdt.property_u32("#address-cells", 2);
    fdt.property_u32("#size-cells", 2);
    fdt.property_string("compatible", "simple-bus");
    fdt.property("ranges", none.as_slice());
    fdt.node("syscon@100000");
    fdt.property_string("compatible", "sifive,test1\0sifive,test0\0syscon");
    fdt.property_u64_pair("reg", 0x10_0000, 0x1000);
    fdt.property_u32("phandle", 3);
    fdt.end_node();
    add_interrupt_devices(&mut fdt);
    add_virtio_nodes(&mut fdt, config.virtio_count);
    add_framebuffer_node(&mut fdt, config.framebuffer);
    fdt.end_node();
    fdt.node("poweroff");
    fdt.property_string("compatible", "syscon-poweroff");
    fdt.property_u32("regmap", 3);
    fdt.property_u32("offset", 0);
    fdt.property_u32("value", 0x5555);
    fdt.end_node();
    add_chosen_node(&mut fdt, config);
    fdt.end_node();
    fdt
}

impl Builder {
    /// Puts the parts together, if the sizes fit their header fields.
    fn finish(self) -> (r: Option<Vec<u8>>)
        ensures
            match r {
                Some(tree) => tree@ == self@.finished() && tree@.len() == self@.size()
                    && self@.size() <= u32::MAX,
                None => self@.size() > u32::MAX,
            },
    {
        let mut whole: Builder = self;
        whole.word(END);
        let s: usize = whole.structure.len();
        let t: usize = whole.strings.len();
        if s as u64 > 0xffff_ffff || t as u64 > 0xffff_ffff {
            return None;
        }
        let total: u64 = 56 + s as u64 + t as u64;
        let size: u64 = total + (8 - total % 8) % 8;
        if size > 0xffff_ffff {
            return None;
        }
        let header: Vec<u32> = vec![
            MAGIC,
            size as u32,
            56,
            (56 + s) as u32,
            40,
            17,
            16,
            0,
            t as u32,
            s as u32,
        ];
        assert(header@ =~= seq![
            MAGIC,
            size as u32,
            56,
            (56 + s) as u32,
            40,
            17,
            16,
            0,
            t as u32,
            s as u32,
        ]);
        let mut out: Vec<u8> = cells_of(header.as_slice());
        proof {
            lemma_cell_bytes_len(header@);
        }
        let mut reservations: Vec<u8> = bytes::zeros(16);
        out.append(&mut reservations);
        out.append(&mut whole.structure);
        out.append(&mut whole.strings);
        let mut padding: Vec<u8> = bytes::zeros((size - total) as usize);
        out.append(&mut padding);
        Some(out)
    }
}

proof fn lemma_cell_bytes_len(cells: Seq<u32>)
    ensures
        cell_bytes(cells).len() == 4 * cells.len(),
    decreases cells.len(),
{
    if cells.len() > 0 {
        lemma_cell_bytes_len(cells.drop_last());
    }
}

/// Builds the device tree of a platform, unless it is larger than its header
/// can say.
#[must_use]
pub fn try_build(config: FdtConfig<'_>) -> (r: Option<Vec<u8>>)
    ensures
        match r {
            Some(tree) => tree@ == BuilderModel::tree(config@).finished() && tree@.len()
                == BuilderModel::tree(config@).size() && tree@.len() <= u32::MAX,
            None => BuilderModel::tree(config@).size() > u32::MAX,
        },
{
    let builder: Builder = describe(config);
    builder.finish()
}

/// Builds the device tree of a platform.
#[must_use]
pub fn build(config: FdtConfig<'_>) -> (r: Vec<u8>)
    requires
        BuilderModel::tree(config@).size() <= u32::MAX,
    ensures
        r@ == BuilderModel::tree(config@).finished(),
        r@.len() == BuilderModel::tree(config@).size(),
{
    match try_build(config) {
        Some(tree) => tree,
        None => Vec::new(),
    }
}

/// A table of names is a run of terminated names.
pub open spec fn sound_table(strings: Seq<u8>) -> bool {
    strings.len() == 0 || strings.last() == 0
}

proof fn lemma_name_end(strings: Seq<u8>, start: int)
    requires
        sound_table(strings),
        0 <= start < strings.len(),
    ensures
        start <= name_end(strings, start) < strings.len(),
        strings[name_end(strings, start)] == 0,
    decreases strings.len() - start,
{
    if strings[start] != 0 {
        lemma_name_end(strings, start + 1);
    }
}

proof fn lemma_name_place(strings: Seq<u8>, start: int, name: Seq<u8>)
    requires
        sound_table(strings),
        0 <= start <= strings.len(),
    ensures
        ({
            let p = name_place(strings, start, name);
            &&& start <= p <= strings.len()
            &&& p < strings.len() ==> p + name.len() < strings.len() && strings.subrange(
                p,
                p + name.len(),
            ) == name && strings[p + name.len()] == 0
        }),
    decreases strings.len() - start,
{
    if start < strings.len() {
        lemma_name_end(strings, start);
        let end = name_end(strings, start);
        if strings.subrange(start, end) == name {
            assert(name.len() == end - start);
        } else {
            lemma_name_place(strings, end + 1, name);
        }
    }
}

/// The name of a property stands in the table where the property says, with
/// its terminator, and the names that were there before stay in their places.
pub proof fn law_property_name_is_in_table(b: BuilderModel, name: Seq<char>, value: Seq<u8>)
    requires
        sound_table(b.strings),
    ensures
        ({
            let after = b.property(name, value);
            let data = vstd::utf8::encode_utf8(name);
            let p = name_place(b.strings, 0, data);
            &&& sound_table(after.strings)
            &&& 0 <= p && p + data.len() < after.strings.len()
            &&& after.strings.subrange(p, p + data.len()) == data
            &&& after.strings[p + data.len()] == 0
            &&& b.strings.len() <= after.strings.len()
            &&& after.strings.take(b.strings.len() as int) == b.strings
        }),
{
    let data = vstd::utf8::encode_utf8(name);
    lemma_name_place(b.strings, 0, data);
    let after = b.property(name, value);
    let p = name_place(b.strings, 0, data);
    if p >= b.strings.len() {
        assert(after.strings =~= b.strings + data.push(0));
        assert(after.strings.subrange(p, p + data.len()) =~= data);
    }
    assert(after.strings.take(b.strings.len() as int) =~= b.strings);
}

/// A finished tree starts with its magic number and has the size that it
/// says, a multiple of eight.
pub proof fn law_tree_says_its_size(b: BuilderModel)
    requires
        b.size() <= u32::MAX,
    ensures
        b.finished().len() == b.size(),
        b.size() % 8 == 0,
        b.finished().subrange(0, 4) == word_bytes(MAGIC),
        b.finished().subrange(4, 8) == word_bytes(b.size() as u32),
{
    let whole = b.word(END);
    let s = whole.structure.len();
    let t = whole.strings.len();
    let cells = seq![
        MAGIC,
        b.size() as u32,
        56,
        (56 + s) as u32,
        40,
        17,
        16,
        0,
        t as u32,
        s as u32,
    ];
    lemma_cell_bytes_len(cells);
    lemma_cell_at(cells, 0);
    lemma_cell_at(cells, 1);
    assert(b.finished().subrange(0, 4) =~= cell_bytes(cells).subrange(0, 4));
    assert(b.finished().subrange(4, 8) =~= cell_bytes(cells).subrange(4, 8));
}

/// The number of four bytes at a place, most significant byte first.
pub open spec fn be32_at(d: Seq<u8>, p: int) -> int {
    0x100_0000 * d[p] + 0x1_0000 * d[p + 1] + 0x100 * d[p + 2] + d[p + 3]
}

/// The number of eight bytes at a place, most significant byte first.
pub open spec fn be64_at(d: Seq<u8>, p: int) -> int {
    0x1_0000_0000 * be32_at(d, p) + be32_at(d, p + 4)
}

/// Numbers that are written one after another are read one after another.
pub proof fn law_cells_read_back(cells: Seq<u32>, i: int)
    requires
        0 <= i < cells.len(),
    ensures
        cell_bytes(cells).len() == 4 * cells.len(),
        be32_at(cell_bytes(cells), 4 * i) == cells[i],
{
    lemma_cell_at(cells, i);
    let word = cell_bytes(cells).subrange(4 * i, 4 * i + 4);
    assert(word == word_bytes(cells[i]));
    assert(word[0] == cell_bytes(cells)[4 * i]);
    assert(word[1] == cell_bytes(cells)[4 * i + 1]);
    assert(word[2] == cell_bytes(cells)[4 * i + 2]);
    assert(word[3] == cell_bytes(cells)[4 * i + 3]);
}

/// A property of two numbers holds 16 bytes, which read as the two numbers, most
/// significant byte first. It says its length, and its bytes follow.
pub proof fn law_pair_reads_back(b: BuilderModel, name: Seq<char>, first: u64, second: u64)
    ensures
        ({
            let after = b.pair(name, first, second).structure;
            let p = b.structure.len() as int;
            &&& p + 28 <= after.len()
            &&& be32_at(after, p) == 3
            &&& be32_at(after, p + 4) == 16
            &&& be64_at(after, p + 12) == first
            &&& be64_at(after, p + 20) == second
        }),
{
    let cells = pair_cells(first, second);
    let data = cell_bytes(cells);
    law_cells_read_back(cells, 0);
    law_cells_read_back(cells, 1);
    law_cells_read_back(cells, 2);
    law_cells_read_back(cells, 3);
    assert(be64_at(data, 0) == first && be64_at(data, 8) == second);
    let after = b.pair(name, first, second).structure;
    let p = b.structure.len() as int;
    assert(after.subrange(p + 12, p + 28) =~= data);
    assert forall|k: int| 0 <= k < 16 implies after[p + 12 + k] == #[trigger] data[k] by {
        assert(after.subrange(p + 12, p + 28)[k] == data[k]);
    }
    assert(after[p + 12] == data[0] && after[p + 13] == data[1] && after[p + 14] == data[2]
        && after[p + 15] == data[3]);
    assert(after[p + 16] == data[4] && after[p + 17] == data[5] && after[p + 18] == data[6]
        && after[p + 19] == data[7]);
    assert(after[p + 20] == data[8] && after[p + 21] == data[9] && after[p + 22] == data[10]
        && after[p + 23] == data[11]);
    assert(after[p + 24] == data[12] && after[p + 25] == data[13] && after[p + 26] == data[14]
        && after[p + 27] == data[15]);
}

proof fn lemma_cell_at(cells: Seq<u32>, i: int)
    requires
        0 <= i < cells.len(),
    ensures
        cell_bytes(cells).len() == 4 * cells.len(),
        cell_bytes(cells).subrange(4 * i, 4 * i + 4) == word_bytes(cells[i]),
    decreases cells.len(),
{
    lemma_cell_bytes_len(cells);
    lemma_cell_bytes_len(cells.drop_last());
    if i < cells.len() - 1 {
        lemma_cell_at(cells.drop_last(), i);
        assert(cell_bytes(cells).subrange(4 * i, 4 * i + 4) =~= cell_bytes(
            cells.drop_last(),
        ).subrange(4 * i, 4 * i + 4));
    } else {
        assert(cell_bytes(cells).subrange(4 * i, 4 * i + 4) =~= word_bytes(cells[i]));
    }
}

} // verus!

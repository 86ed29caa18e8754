//! What a kernel finds in the device tree that it is handed.

use vstd::prelude::*;
use vstd::utf8::encode_utf8;
use crate::fdt::{
    be32_at,
    be64_at,
    cell_bytes,
    law_cells_read_back,
    law_property_name_is_in_table,
    name_place,
    sound_table,
    string_bytes,
    word_bytes,
    BuilderModel,
    FdtModel,
    FramebufferDescription,
};
use crate::text;

verus! {

/// Whether a tree under construction begins with a structure and a table of names.
#[verifier::opaque]
pub open spec fn begins(b: BuilderModel, structure: Seq<u8>, strings: Seq<u8>) -> bool {
    &&& structure.len() <= b.structure.len()
    &&& b.structure.take(structure.len() as int) == structure
    &&& strings.len() <= b.strings.len()
    &&& b.strings.take(strings.len() as int) == strings
    &&& sound_table(b.strings)
    &&& b.structure.len() % 4 == 0
}

proof fn lemma_begins(b: BuilderModel)
    requires
        sound_table(b.strings),
        b.structure.len() % 4 == 0,
    ensures
        begins(b, b.structure, b.strings),
{
    reveal(begins);
    assert(b.structure.take(b.structure.len() as int) =~= b.structure);
    assert(b.strings.take(b.strings.len() as int) =~= b.strings);
}

broadcast proof fn lemma_word(b: BuilderModel, value: u32, s: Seq<u8>, t: Seq<u8>)
    requires
        begins(b, s, t),
    ensures
        #[trigger] begins(b.word(value), s, t),
{
    reveal(begins);
    assert(b.word(value).structure.take(s.len() as int) =~= b.structure.take(s.len() as int));
}

broadcast proof fn lemma_end(b: BuilderModel, s: Seq<u8>, t: Seq<u8>)
    requires
        begins(b, s, t),
    ensures
        #[trigger] begins(b.end_node(), s, t),
{
    lemma_word(b, crate::fdt::END_NODE, s, t);
}

broadcast proof fn lemma_node(b: BuilderModel, name: Seq<char>, s: Seq<u8>, t: Seq<u8>)
    requires
        begins(b, s, t),
    ensures
        #[trigger] begins(b.node(name), s, t),
{
    reveal(begins);
    assert(b.node(name).structure.take(s.len() as int) =~= b.structure.take(s.len() as int));
}

broadcast proof fn lemma_property(
    b: BuilderModel,
    name: Seq<char>,
    value: Seq<u8>,
    s: Seq<u8>,
    t: Seq<u8>,
)
    requires
        begins(b, s, t),
    ensures
        #[trigger] begins(b.property(name, value), s, t),
{
    reveal(begins);
    let after = b.property(name, value);
    law_property_name_is_in_table(b, name, value);
    assert(after.structure.take(s.len() as int) =~= b.structure.take(s.len() as int));
    assert(after.strings.take(t.len() as int) =~= after.strings.take(b.strings.len() as int).take(
        t.len() as int,
    ));
}

broadcast proof fn lemma_number(
    b: BuilderModel,
    name: Seq<char>,
    value: u32,
    s: Seq<u8>,
    t: Seq<u8>,
)
    requires
        begins(b, s, t),
    ensures
        #[trigger] begins(b.number(name, value), s, t),
{
    lemma_property(b, name, word_bytes(value), s, t);
}

broadcast proof fn lemma_cells(
    b: BuilderModel,
    name: Seq<char>,
    cells: Seq<u32>,
    s: Seq<u8>,
    t: Seq<u8>,
)
    requires
        begins(b, s, t),
    ensures
        #[trigger] begins(b.cells(name, cells), s, t),
{
    lemma_property(b, name, cell_bytes(cells), s, t);
}

broadcast proof fn lemma_pair(
    b: BuilderModel,
    name: Seq<char>,
    first: u64,
    second: u64,
    s: Seq<u8>,
    t: Seq<u8>,
)
    requires
        begins(b, s, t),
    ensures
        #[trigger] begins(b.pair(name, first, second), s, t),
{
    lemma_cells(b, name, crate::fdt::pair_cells(first, second), s, t);
}

broadcast proof fn lemma_string(
    b: BuilderModel,
    name: Seq<char>,
    value: Seq<char>,
    s: Seq<u8>,
    t: Seq<u8>,
)
    requires
        begins(b, s, t),
    ensures
        #[trigger] begins(b.string(name, value), s, t),
{
    lemma_property(b, name, string_bytes(value), s, t);
}

broadcast group group_begins {
    lemma_end,
    lemma_node,
    lemma_property,
    lemma_number,
    lemma_cells,
    lemma_pair,
    lemma_string,
}

proof fn lemma_cpu_nodes(b: BuilderModel, s: Seq<u8>, t: Seq<u8>)
    requires
        begins(b, s, t),
    ensures
        begins(b.cpu_nodes(), s, t),
{
    broadcast use group_begins;

}

proof fn lemma_interrupt_devices(b: BuilderModel, s: Seq<u8>, t: Seq<u8>)
    requires
        begins(b, s, t),
    ensures
        begins(b.interrupt_devices(), s, t),
{
    broadcast use group_begins;

}

proof fn lemma_virtio_nodes(b: BuilderModel, index: nat, count: nat, s: Seq<u8>, t: Seq<u8>)
    requires
        begins(b, s, t),
    ensures
        begins(b.virtio_nodes(index, count), s, t),
    decreases count - index,
{
    broadcast use group_begins;

    if index < count {
        let address = (0x1000_1000 + index * 0x1000) as u64;
        let next = b.node("virtio@"@ + text::hexadecimal(address as nat)).string(
            "compatible"@,
            "virtio,mmio"@,
        ).pair("reg"@, address, 0x1000).cells(
            "interrupts-extended"@,
            seq![4u32, crate::fdt::device_irq(index) as u32],
        ).end_node();
        assert(begins(next, s, t));
        lemma_virtio_nodes(next, index + 1, count, s, t);
    }
}

proof fn lemma_framebuffer(
    b: BuilderModel,
    framebuffer: Option<FramebufferDescription>,
    s: Seq<u8>,
    t: Seq<u8>,
)
    requires
        begins(b, s, t),
    ensures
        begins(b.framebuffer_node(framebuffer), s, t),
{
    broadcast use group_begins;

}

proof fn lemma_chosen(b: BuilderModel, config: FdtModel, s: Seq<u8>, t: Seq<u8>)
    requires
        begins(b, s, t),
    ensures
        begins(b.chosen_node(config), s, t),
{
    broadcast use group_begins;

}

/// Whether a node of a name starts at a place of a finished tree. Its structure
/// starts where the third word says.
pub open spec fn node_at(tree: Seq<u8>, p: int, name: Seq<char>) -> bool {
    let data = encode_utf8(name);
    &&& be32_at(tree, 8) <= p
    &&& p % 4 == 0
    &&& p + 5 + data.len() <= tree.len()
    &&& be32_at(tree, p) == 1
    &&& tree.subrange(p + 4, p + 4 + data.len()) == data
    &&& tree[p + 4 + data.len()] == 0
}

/// The place behind the name of a node.
pub open spec fn inside(p: int, name: Seq<char>) -> int {
    let len = 5 + encode_utf8(name).len();
    p + len + (4 - len % 4) % 4
}

/// Whether a property of a name and a length stands at a place. Names stand in the
/// table that starts where the fourth word says.
pub open spec fn property_at(tree: Seq<u8>, p: int, name: Seq<char>, len: int) -> bool {
    let data = encode_utf8(name);
    let place = be32_at(tree, 12) + be32_at(tree, p + 8);
    &&& p + 12 + len <= tree.len()
    &&& be32_at(tree, p) == 3
    &&& be32_at(tree, p + 4) == len
    &&& place + data.len() < tree.len()
    &&& tree.subrange(place, place + data.len()) == data
    &&& tree[place + data.len()] == 0
}

/// The place behind a property.
pub open spec fn behind(p: int, len: int) -> int {
    p + 12 + len + (4 - len % 4) % 4
}

/// Whether a node says that memory lies from one place on for so many bytes: it is a
/// `memory@80000000` whose type is `memory` and whose `reg` is the two numbers.
pub open spec fn describes_memory(tree: Seq<u8>, p: int, start: int, size: int) -> bool {
    let kind = string_bytes("memory"@);
    let first = inside(p, "memory@80000000"@);
    let second = behind(first, kind.len() as int);
    &&& node_at(tree, p, "memory@80000000"@)
    &&& property_at(tree, first, "device_type"@, kind.len() as int)
    &&& tree.subrange(first + 12, first + 12 + kind.len()) == kind
    &&& property_at(tree, second, "reg"@, 16)
    &&& be64_at(tree, second + 12) == start
    &&& be64_at(tree, second + 20) == size
    &&& be32_at(tree, second + 28) == 2
}

proof fn lemma_word_reads(d: Seq<u8>, p: int, value: u32)
    requires
        0 <= p,
        p + 4 <= d.len(),
        d.subrange(p, p + 4) == word_bytes(value),
    ensures
        be32_at(d, p) == value,
{
    let x = d.subrange(p, p + 4);
    assert(x[0] == d[p] && x[1] == d[p + 1] && x[2] == d[p + 2] && x[3] == d[p + 3]);
}

/// A finished tree.
#[verifier::opaque]
pub open spec fn made(b: BuilderModel) -> Seq<u8> {
    b.finished()
}

/// Where the parts of a finished tree stand.
proof fn lemma_finished(b: BuilderModel)
    requires
        b.size() <= u32::MAX,
    ensures
        ({
            let tree = made(b);
            let s = b.structure.len() as int;
            &&& tree.len() == b.size()
            &&& be32_at(tree, 8) == 56
            &&& be32_at(tree, 12) == 60 + s
            &&& 60 + s + b.strings.len() <= tree.len()
            &&& forall|i: int| 0 <= i < s ==> tree[56 + i] == #[trigger] b.structure[i]
            &&& forall|i: int|
                0 <= i < b.strings.len() ==> tree[60 + s + i] == #[trigger] b.strings[i]
        }),
{
    reveal(made);
    let whole = b.word(crate::fdt::END);
    let s = whole.structure.len();
    let t = whole.strings.len();
    let cells = seq![
        crate::fdt::MAGIC,
        b.size() as u32,
        56,
        (56 + s) as u32,
        40,
        17,
        16,
        0,
        t as u32,
        s as u32,
    ];
    law_cells_read_back(cells, 2);
    law_cells_read_back(cells, 3);
    crate::fdt::law_tree_says_its_size(b);
    let tree = made(b);
    let head = cell_bytes(cells);
    assert(tree.subrange(8, 16) =~= head.subrange(8, 16));
    assert(tree[8] == head[8] && tree[9] == head[9] && tree[10] == head[10] && tree[11] == head[11]);
    assert(tree[12] == head[12] && tree[13] == head[13] && tree[14] == head[14] && tree[15]
        == head[15]);
}

/// What a builder holds, its finished tree holds.
proof fn lemma_reads_through(b: BuilderModel, m: BuilderModel, p: int)
    requires
        b.size() <= u32::MAX,
        begins(b, m.structure, m.strings),
        0 <= p,
        p + 4 <= m.structure.len(),
    ensures
        be32_at(made(b), 56 + p) == be32_at(m.structure, p),
{
    lemma_finished(b);
    reveal(begins);
    let tree = made(b);
    let x = b.structure.take(m.structure.len() as int);
    assert(x[p] == b.structure[p] && x[p + 1] == b.structure[p + 1] && x[p + 2] == b.structure[p
        + 2] && x[p + 3] == b.structure[p + 3]);
    assert(tree[56 + p] == b.structure[p]);
    assert(tree[56 + (p + 1)] == b.structure[p + 1]);
    assert(tree[56 + (p + 2)] == b.structure[p + 2]);
    assert(tree[56 + (p + 3)] == b.structure[p + 3]);
}

proof fn lemma_part_through(b: BuilderModel, m: BuilderModel, p: int, data: Seq<u8>)
    requires
        b.size() <= u32::MAX,
        begins(b, m.structure, m.strings),
        0 <= p,
        p + data.len() <= m.structure.len(),
        m.structure.subrange(p, p + data.len()) == data,
    ensures
        56 + p + data.len() <= made(b).len(),
        made(b).subrange(56 + p, 56 + p + data.len()) == data,
{
    lemma_finished(b);
    reveal(begins);
    let tree = made(b);
    let x = b.structure.take(m.structure.len() as int);
    assert forall|i: int| 0 <= i < data.len() implies tree[56 + p + i] == data[i] by {
        assert(x[p + i] == b.structure[p + i]);
        assert(tree[56 + (p + i)] == b.structure[p + i]);
        assert(m.structure.subrange(p, p + data.len())[i] == m.structure[p + i]);
    }
    assert(tree.subrange(56 + p, 56 + p + data.len()) =~= data);
}

/// Whether one tree is another with a property added.
#[verifier::opaque]
spec fn adds(m: BuilderModel, name: Seq<char>, value: Seq<u8>, n: BuilderModel) -> bool {
    n == m.property(name, value)
}

/// Whether one tree is another with a node opened.
#[verifier::opaque]
spec fn opens(m: BuilderModel, name: Seq<char>, n: BuilderModel) -> bool {
    n == m.node(name)
}

/// Whether one tree is another with a node closed.
#[verifier::opaque]
spec fn closes(m: BuilderModel, n: BuilderModel) -> bool {
    n == m.word(2)
}

/// What adding a property puts behind the structure.
proof fn lemma_property_shape(m: BuilderModel, name: Seq<char>, value: Seq<u8>)
    requires
        m.structure.len() % 4 == 0,
        value.len() <= u32::MAX,
    ensures
        ({
            let s = m.property(name, value).structure;
            let p = m.structure.len() as int;
            let place = name_place(m.strings, 0, encode_utf8(name));
            &&& s.len() == p + 12 + value.len() + (4 - value.len() % 4) % 4
            &&& s.len() % 4 == 0
            &&& be32_at(s, p) == 3
            &&& be32_at(s, p + 4) == value.len()
            &&& 0 <= place <= u32::MAX ==> be32_at(s, p + 8) == place
            &&& s.subrange(p + 12, p + 12 + value.len()) == value
        }),
{
    let s = m.property(name, value).structure;
    let p = m.structure.len() as int;
    let place = name_place(m.strings, 0, encode_utf8(name));
    assert(s.subrange(p, p + 4) =~= word_bytes(3));
    assert(s.subrange(p + 4, p + 8) =~= word_bytes(value.len() as u32));
    assert(s.subrange(p + 8, p + 12) =~= word_bytes(place as u32));
    assert(s.subrange(p + 12, p + 12 + value.len()) =~= value);
    lemma_word_reads(s, p, 3);
    lemma_word_reads(s, p + 4, value.len() as u32);
    lemma_word_reads(s, p + 8, place as u32);
}

/// What opening a node puts behind the structure.
proof fn lemma_node_shape(m: BuilderModel, name: Seq<char>)
    requires
        m.structure.len() % 4 == 0,
    ensures
        ({
            let s = m.node(name).structure;
            let p = m.structure.len() as int;
            let len = 5 + encode_utf8(name).len();
            &&& s.len() == p + len + (4 - len % 4) % 4
            &&& s.len() % 4 == 0
            &&& be32_at(s, p) == 1
            &&& s.subrange(p + 4, p + len) == string_bytes(name)
            &&& m.node(name).strings == m.strings
        }),
{
    let s = m.node(name).structure;
    let p = m.structure.len() as int;
    assert(s.subrange(p, p + 4) =~= word_bytes(1));
    assert(s.subrange(p + 4, p + 5 + encode_utf8(name).len()) =~= string_bytes(name));
    lemma_word_reads(s, p, 1);
}

/// A name in the table of a builder is found in the finished tree.
proof fn lemma_name_found(b: BuilderModel, n: BuilderModel, place: int, data: Seq<u8>)
    requires
        b.size() <= u32::MAX,
        begins(b, n.structure, n.strings),
        0 <= place,
        place + data.len() < n.strings.len(),
        n.strings.subrange(place, place + data.len()) == data,
        n.strings[place + data.len()] == 0,
    ensures
        ({
            let t = be32_at(made(b), 12) + place;
            &&& t + data.len() < made(b).len()
            &&& made(b).subrange(t, t + data.len()) == data
            &&& made(b)[t + data.len()] == 0
            &&& place <= u32::MAX
        }),
{
    lemma_finished(b);
    reveal(begins);
    let tree = made(b);
    let t = 60 + b.structure.len() + place;
    let table = b.strings.take(n.strings.len() as int);
    assert forall|i: int| 0 <= i <= data.len() implies #[trigger] tree[t + i] == n.strings[place
        + i] by {
        assert(table[place + i] == b.strings[place + i]);
        assert(tree[60 + b.structure.len() + (place + i)] == b.strings[place + i]);
    }
    assert forall|i: int| 0 <= i < data.len() implies n.strings[place + i] == #[trigger] data[i] by {
        assert(n.strings.subrange(place, place + data.len())[i] == n.strings[place + i]);
    }
    assert(tree.subrange(t, t + data.len()) =~= data);
    assert(tree[t + data.len()] == 0);
}

/// A property that a builder adds is found in the finished tree.
proof fn lemma_property_found(
    b: BuilderModel,
    m: BuilderModel,
    name: Seq<char>,
    value: Seq<u8>,
    n: BuilderModel,
)
    requires
        b.size() <= u32::MAX,
        sound_table(m.strings),
        m.structure.len() % 4 == 0,
        adds(m, name, value, n),
        begins(b, n.structure, n.strings),
        value.len() <= u32::MAX,
    ensures
        property_at(made(b), 56 + m.structure.len() as int, name, value.len() as int),
        made(b).subrange(
            56 + m.structure.len() as int + 12,
            56 + m.structure.len() as int + 12 + value.len(),
        ) == value,
        56 + n.structure.len() == behind(56 + m.structure.len() as int, value.len() as int),
        sound_table(n.strings),
        n.structure.len() % 4 == 0,
{
    let p = m.structure.len() as int;
    let data = encode_utf8(name);
    let place = name_place(m.strings, 0, data);
    reveal(adds);
    law_property_name_is_in_table(m, name, value);
    lemma_property_shape(m, name, value);
    lemma_name_found(b, n, place, data);
    lemma_reads_through(b, n, p);
    lemma_reads_through(b, n, p + 4);
    lemma_reads_through(b, n, p + 8);
    lemma_part_through(b, n, p + 12, value);
}

/// A node that a builder opens is found in the finished tree.
#[verifier::rlimit(40)]
proof fn lemma_node_found(b: BuilderModel, m: BuilderModel, name: Seq<char>, n: BuilderModel)
    requires
        b.size() <= u32::MAX,
        sound_table(m.strings),
        m.structure.len() % 4 == 0,
        opens(m, name, n),
        begins(b, n.structure, n.strings),
    ensures
        node_at(made(b), 56 + m.structure.len() as int, name),
        56 + n.structure.len() == inside(56 + m.structure.len() as int, name),
        n.structure.len() % 4 == 0,
        n.strings == m.strings,
{
    let p = m.structure.len() as int;
    let data = encode_utf8(name);
    let len = 5 + data.len() as int;
    assert(n.structure.len() == p + len + (4 - len % 4) % 4 && n.structure.len() % 4 == 0 && be32_at(
        n.structure,
        p,
    ) == 1 && n.structure.subrange(p + 4, p + len) == string_bytes(name) && n.strings == m.strings)
        by {
        reveal(opens);
        lemma_node_shape(m, name);
    }
    lemma_reads_through(b, n, p);
    assert(string_bytes(name).len() == data.len() + 1);
    lemma_part_through(b, n, p + 4, string_bytes(name));
    assert(be32_at(made(b), 8) == 56) by {
        lemma_finished(b);
    }
    lemma_text(made(b), 60 + p, name);
}

/// A text with its terminator.
proof fn lemma_text(d: Seq<u8>, p: int, name: Seq<char>)
    requires
        0 <= p,
        p + 1 + encode_utf8(name).len() <= d.len(),
        d.subrange(p, p + 1 + encode_utf8(name).len()) == string_bytes(name),
    ensures
        d.subrange(p, p + encode_utf8(name).len()) == encode_utf8(name),
        d[p + encode_utf8(name).len()] == 0,
{
    let data = encode_utf8(name);
    let part = d.subrange(p, p + 1 + data.len());
    assert(d.subrange(p, p + data.len()) =~= part.take(data.len() as int));
    assert(part.take(data.len() as int) =~= data);
    assert(part[data.len() as int] == d[p + data.len()]);
}

/// The tree of a platform says where memory is: it has a memory node that starts at
/// 0x8000_0000 and is as large as the RAM of the platform.
pub proof fn law_tree_describes_memory(config: FdtModel) -> (p: int)
    requires
        BuilderModel::tree(config).size() <= u32::MAX,
    ensures
        describes_memory(
            BuilderModel::tree(config).finished(),
            p,
            0x8000_0000,
            config.ram_size as int,
        ),
{
    broadcast use group_begins;

    let tree = BuilderModel::tree(config);
    let empty = BuilderModel::empty();
    let none = Seq::<u8>::empty();
    assert(begins(empty, none, none)) by {
        reveal(begins);
        assert(none.take(0) =~= none);
    }
    let start = empty.node(""@).number("#address-cells"@, 2).number("#size-cells"@, 2).string(
        "compatible"@,
        "riscv-virtio"@,
    ).string("model"@, "riscv-virtio,qemu"@);
    assert(begins(start, none, none));
    lemma_cpu_nodes(start, none, none);
    let m = start.cpu_nodes();
    assert(sound_table(m.strings) && m.structure.len() % 4 == 0) by {
        reveal(begins);
    }
    let named = m.node("memory@80000000"@);
    let typed = named.string("device_type"@, "memory"@);
    let placed = typed.pair("reg"@, 0x8000_0000, config.ram_size);
    let closed = placed.end_node();
    lemma_begins(m);
    assert(begins(closed, m.structure, m.strings));
    assert(sound_table(closed.strings) && closed.structure.len() % 4 == 0) by {
        reveal(begins);
    }
    lemma_rest(closed, closed.structure, closed.strings, config);
    reveal(opens);
    reveal(adds);
    reveal(closes);
    lemma_memory_node(tree, m, named, typed, placed, closed, config.ram_size);
    reveal(made);
    56 + m.structure.len() as int
}

/// The nodes behind the memory node leave what is before them.
#[verifier::rlimit(80)]
#[verifier::spinoff_prover]
proof fn lemma_rest(closed: BuilderModel, s: Seq<u8>, t: Seq<u8>, config: FdtModel)
    requires
        sound_table(closed.strings),
        closed.structure.len() % 4 == 0,
        s == closed.structure,
        t == closed.strings,
        closed == BuilderModel::empty().node(""@).number("#address-cells"@, 2).number(
            "#size-cells"@,
            2,
        ).string("compatible"@, "riscv-virtio"@).string(
            "model"@,
            "riscv-virtio,qemu"@,
        ).cpu_nodes().node("memory@80000000"@).string("device_type"@, "memory"@).pair(
            "reg"@,
            0x8000_0000,
            config.ram_size,
        ).end_node(),
    ensures
        begins(BuilderModel::tree(config), s, t),
{
    broadcast use group_begins;

    lemma_begins(closed);
    let bus = closed.node("soc"@).number("#address-cells"@, 2).number("#size-cells"@, 2).string(
        "compatible"@,
        "simple-bus"@,
    ).property("ranges"@, Seq::empty()).node("syscon@100000"@).string(
        "compatible"@,
        "sifive,test1\0sifive,test0\0syscon"@,
    ).pair("reg"@, 0x10_0000, 0x1000).number("phandle"@, 3).end_node();
    assert(begins(bus, s, t));
    lemma_interrupt_devices(bus, s, t);
    let devices = bus.interrupt_devices();
    lemma_virtio_nodes(devices, 0, config.virtio_count as nat, s, t);
    let slots = devices.virtio_nodes(0, config.virtio_count as nat);
    lemma_framebuffer(slots, config.framebuffer, s, t);
    let shown = slots.framebuffer_node(config.framebuffer);
    let off = shown.end_node().node("poweroff"@).string("compatible"@, "syscon-poweroff"@).number(
        "regmap"@,
        3,
    ).number("offset"@, 0).number("value"@, 0x5555).end_node();
    assert(begins(off, s, t));
    lemma_chosen(off, config, s, t);
    assert(begins(off.chosen_node(config).end_node(), s, t));
    reveal(BuilderModel::tree);
}

proof fn lemma_memory_node(
    b: BuilderModel,
    m: BuilderModel,
    named: BuilderModel,
    typed: BuilderModel,
    placed: BuilderModel,
    closed: BuilderModel,
    size: u64,
)
    requires
        b.size() <= u32::MAX,
        sound_table(m.strings),
        m.structure.len() % 4 == 0,
        opens(m, "memory@80000000"@, named),
        adds(named, "device_type"@, string_bytes("memory"@), typed),
        adds(typed, "reg"@, cell_bytes(crate::fdt::pair_cells(0x8000_0000, size)), placed),
        closes(placed, closed),
        begins(b, closed.structure, closed.strings),
    ensures
        describes_memory(made(b), 56 + m.structure.len() as int, 0x8000_0000, size as int),
{
    let kind = string_bytes("memory"@);
    let numbers = cell_bytes(crate::fdt::pair_cells(0x8000_0000, size));
    lemma_numbers(size);
    lemma_kind();
    assert(named.structure.len() % 4 == 0 && named.strings == m.strings) by {
        reveal(opens);
        lemma_node_shape(m, "memory@80000000"@);
    }
    lemma_added(named, "device_type"@, kind, typed);
    lemma_added(typed, "reg"@, numbers, placed);
    lemma_within(b, closed, placed);
    lemma_shorter(b, placed, typed);
    lemma_shorter(b, typed, named);
    lemma_node_found(b, m, "memory@80000000"@, named);
    lemma_property_found(b, named, "device_type"@, kind, typed);
    lemma_property_found(b, typed, "reg"@, numbers, placed);
    let q = 56 + typed.structure.len() as int;
    lemma_taken(made(b), q + 12, numbers);
    lemma_closed(b, placed, closed);
}

/// Two numbers read as they were written.
proof fn lemma_numbers(size: u64)
    ensures
        ({
            let numbers = cell_bytes(crate::fdt::pair_cells(0x8000_0000, size));
            &&& numbers.len() == 16
            &&& be64_at(numbers, 0) == 0x8000_0000
            &&& be64_at(numbers, 8) == size
        }),
{
    let cells = crate::fdt::pair_cells(0x8000_0000, size);
    law_cells_read_back(cells, 0);
    law_cells_read_back(cells, 1);
    law_cells_read_back(cells, 2);
    law_cells_read_back(cells, 3);
}

/// Bytes that are taken from others read as the same numbers.
proof fn lemma_taken(d: Seq<u8>, p: int, x: Seq<u8>)
    requires
        0 <= p,
        p + 16 <= d.len(),
        x.len() == 16,
        d.subrange(p, p + 16) == x,
    ensures
        be64_at(d, p) == be64_at(x, 0),
        be64_at(d, p + 8) == be64_at(x, 8),
{
    let y = d.subrange(p, p + 16);
    assert(y[0] == d[p] && y[1] == d[p + 1] && y[2] == d[p + 2] && y[3] == d[p + 3]);
    assert(y[4] == d[p + 4] && y[5] == d[p + 5] && y[6] == d[p + 6] && y[7] == d[p + 7]);
    assert(y[8] == d[p + 8] && y[9] == d[p + 9] && y[10] == d[p + 10] && y[11] == d[p + 11]);
    assert(y[12] == d[p + 12] && y[13] == d[p + 13] && y[14] == d[p + 14] && y[15] == d[p + 15]);
}

/// A node that is closed says so.
proof fn lemma_closed(b: BuilderModel, placed: BuilderModel, closed: BuilderModel)
    requires
        b.size() <= u32::MAX,
        closes(placed, closed),
        begins(b, closed.structure, closed.strings),
    ensures
        be32_at(made(b), 56 + placed.structure.len() as int) == 2,
{
    reveal(closes);
    let r = placed.structure.len() as int;
    assert(closed.structure.subrange(r, r + 4) =~= word_bytes(2));
    lemma_word_reads(closed.structure, r, 2);
    lemma_reads_through(b, closed, r);
}

/// A name that is short has few bytes.
proof fn lemma_kind()
    ensures
        string_bytes("memory"@).len() <= 29,
{
    reveal_strlit("memory");
    lemma_encoded_len("memory"@);
}

proof fn lemma_encoded_len(name: Seq<char>)
    ensures
        encode_utf8(name).len() <= 4 * name.len(),
    decreases name.len(),
{
    if name.len() > 0 {
        lemma_encoded_len(name.drop_first());
    }
}

proof fn lemma_added(m: BuilderModel, name: Seq<char>, value: Seq<u8>, n: BuilderModel)
    requires
        sound_table(m.strings),
        m.structure.len() % 4 == 0,
        adds(m, name, value, n),
    ensures
        begins(n, m.structure, m.strings),
        sound_table(n.strings),
        n.structure.len() % 4 == 0,
{
    reveal(adds);
    lemma_begins(m);
    lemma_property(m, name, value, m.structure, m.strings);
    reveal(begins);
}

/// What begins with the later of two states begins with the earlier.
proof fn lemma_shorter(b: BuilderModel, n: BuilderModel, m: BuilderModel)
    requires
        begins(b, n.structure, n.strings),
        begins(n, m.structure, m.strings),
    ensures
        begins(b, m.structure, m.strings),
{
    reveal(begins);
    assert(b.structure.take(m.structure.len() as int) =~= b.structure.take(
        n.structure.len() as int,
    ).take(m.structure.len() as int));
    assert(b.strings.take(m.strings.len() as int) =~= b.strings.take(n.strings.len() as int).take(
        m.strings.len() as int,
    ));
}

proof fn lemma_within(b: BuilderModel, closed: BuilderModel, placed: BuilderModel)
    requires
        begins(b, closed.structure, closed.strings),
        closes(placed, closed),
    ensures
        begins(b, placed.structure, placed.strings),
{
    reveal(closes);
    reveal(begins);
    assert(b.structure.take(placed.structure.len() as int) =~= b.structure.take(
        closed.structure.len() as int,
    ).take(placed.structure.len() as int));
    assert(closed.structure.take(placed.structure.len() as int) =~= placed.structure);
}

} // verus!

//! Reports of changed display rows.

use vstd::prelude::*;
use crate::machine::{
    BusModel, Framebuffer, FramebufferUpdate, Host, Machine, MachineError, MachineModel,
    RedrawSpan, FRAMEBUFFER_BASE, RAM_BASE,
};
use crate::memory::{ArenaOffset, DirtySnapshot, GuestAddress, MemoryError, MemoryModel};

verus! {

/// The first display row of a page.
pub open spec fn page_row(display: Framebuffer, page: nat) -> int {
    page as int * 4096 / display.stride as int
}

/// The end of the visible display rows of a page.
pub open spec fn page_end(display: Framebuffer, page: nat) -> int {
    let last = if page * 4096 + 4095 < display.size - 1 {
        page as int * 4096 + 4095
    } else {
        display.size - 1
    };
    let end = last / display.stride as int + 1;
    if end < display.height {
        end
    } else {
        display.height as int
    }
}

/// Spans with the rows of another page, which join the last span if at most
/// three rows lie between. A page that starts right behind the visible rows
/// makes a span without rows, one further down makes none.
pub open spec fn with_rows(spans: Seq<RedrawSpan>, y: int, end: int) -> Seq<RedrawSpan> {
    if spans.len() > 0 && y <= spans.last().y + spans.last().height + 3 {
        let last = spans.last();
        let height = if end - last.y > last.height {
            (end - last.y) as u32
        } else {
            last.height
        };
        spans.update(spans.len() - 1, RedrawSpan { y: last.y, height })
    } else if y <= end {
        spans.push(RedrawSpan { y: y as u32, height: (end - y) as u32 })
    } else {
        spans
    }
}

/// Spans with the rows of the pages that are marked in a bitmap, from `page` on.
pub open spec fn spans_from(
    words: Seq<u32>,
    display: Framebuffer,
    page: nat,
    spans: Seq<RedrawSpan>,
) -> Seq<RedrawSpan>
    decreases words.len() * 32 - page,
{
    if page >= words.len() * 32 {
        spans
    } else {
        let next = if crate::memory::page_is_dirty(words, page) && page * 4096 < display.size {
            with_rows(spans, page_row(display, page), page_end(display, page))
        } else {
            spans
        };
        spans_from(words, display, page + 1, next)
    }
}

/// Whether rows are part of one of some spans.
pub open spec fn covered(spans: Seq<RedrawSpan>, y: int, end: int) -> bool {
    exists|i: int|
        0 <= i < spans.len() && (#[trigger] spans[i]).y <= y && end <= spans[i].y + spans[i].height
}

proof fn lemma_rows_stay_covered(spans: Seq<RedrawSpan>, y: int, end: int, a: int, b: int)
    requires
        covered(spans, a, b),
        0 <= y <= u32::MAX,
        end <= u32::MAX,
    ensures
        covered(with_rows(spans, y, end), a, b),
{
    let i = choose|i: int|
        0 <= i < spans.len() && (#[trigger] spans[i]).y <= a && b <= spans[i].y + spans[i].height;
    let after = with_rows(spans, y, end);
    assert(after[i].y == spans[i].y && after[i].height >= spans[i].height);
}

proof fn lemma_spans_stay_covered(
    words: Seq<u32>,
    display: Framebuffer,
    page: nat,
    spans: Seq<RedrawSpan>,
    a: int,
    b: int,
)
    requires
        covered(spans, a, b),
        display.stride > 0,
    ensures
        covered(spans_from(words, display, page, spans), a, b),
    decreases words.len() * 32 - page,
{
    if page < words.len() * 32 {
        if crate::memory::page_is_dirty(words, page) && page * 4096 < display.size {
            lemma_row_bounds(display, page);
            lemma_rows_stay_covered(
                spans,
                page_row(display, page),
                page_end(display, page),
                a,
                b,
            );
            lemma_spans_stay_covered(
                words,
                display,
                page + 1,
                with_rows(spans, page_row(display, page), page_end(display, page)),
                a,
                b,
            );
        } else {
            lemma_spans_stay_covered(words, display, page + 1, spans, a, b);
        }
    }
}

proof fn lemma_row_bounds(display: Framebuffer, page: nat)
    requires
        display.stride > 0,
        page * 4096 < display.size,
    ensures
        0 <= page_row(display, page) < display.size,
        0 <= page_end(display, page) <= display.height,
        page_row(display, page) < page_end(display, page) || page_end(display, page)
            == display.height,
        page_row(display, page) <= page_row(display, page + 1),
{
    let s = display.stride as int;
    let a = page as int * 4096;
    let b = a + 4096;
    vstd::arithmetic::div_mod::lemma_div_is_ordered(a, b, s);
    vstd::arithmetic::div_mod::lemma_div_pos_is_pos(a, s);
    assert(a / s <= a) by {
        vstd::arithmetic::div_mod::lemma_div_is_ordered_by_denominator(a, 1, s);
        vstd::arithmetic::div_mod::lemma_div_basics(a);
    }
    let last = if page * 4096 + 4095 < display.size - 1 {
        page as int * 4096 + 4095
    } else {
        display.size - 1
    };
    vstd::arithmetic::div_mod::lemma_div_pos_is_pos(last, s);
    vstd::arithmetic::div_mod::lemma_div_is_ordered(a, last, s);
}

proof fn lemma_marked_rows_are_covered(
    words: Seq<u32>,
    display: Framebuffer,
    from: nat,
    spans: Seq<RedrawSpan>,
    page: nat,
)
    requires
        display.stride > 0,
        from <= page < words.len() * 32,
        crate::memory::page_is_dirty(words, page),
        page * 4096 < display.size,
        page_row(display, page) < page_end(display, page),
        spans.len() > 0 ==> spans.last().y <= page_row(display, from),
    ensures
        covered(
            spans_from(words, display, from, spans),
            page_row(display, page),
            page_end(display, page),
        ),
    decreases page - from,
{
    lemma_row_bounds(display, from);
    let y = page_row(display, from);
    let end = page_end(display, from);
    let next = if crate::memory::page_is_dirty(words, from) && from * 4096 < display.size {
        with_rows(spans, y, end)
    } else {
        spans
    };
    if from == page {
        assert(next.last().y <= y && end <= next.last().y + next.last().height);
        assert(covered(next, y, end));
        lemma_spans_stay_covered(words, display, from + 1, next, y, end);
    } else {
        lemma_marked_rows_are_covered(words, display, from + 1, next, page);
    }
}

/// Every visible row of a page that was written is in one of the reported
/// spans.
pub proof fn law_written_rows_are_redrawn(words: Seq<u32>, display: Framebuffer, page: nat)
    requires
        display.stride > 0,
        page < words.len() * 32,
        crate::memory::page_is_dirty(words, page),
        page * 4096 < display.size,
        page_row(display, page) < page_end(display, page),
    ensures
        covered(
            spans_from(words, display, 0, Seq::empty()),
            page_row(display, page),
            page_end(display, page),
        ),
{
    lemma_marked_rows_are_covered(words, display, 0, Seq::empty(), page);
}

/// Whether spans follow one another with at least four rows between, stay
/// among the visible rows, and each hold a row; only a span right behind the
/// visible rows holds none.
pub open spec fn spans_ordered(spans: Seq<RedrawSpan>, rows: u32) -> bool {
    &&& forall|i: int|
        0 <= i < spans.len() ==> (#[trigger] spans[i]).y + spans[i].height <= rows && (
        spans[i].height >= 1 || spans[i].y == rows)
    &&& forall|i: int, j: int|
        0 <= i < j < spans.len() ==> (#[trigger] spans[i]).y + spans[i].height + 4 <= (
        #[trigger] spans[j]).y
}

/// Whether every span holds a row.
pub open spec fn hold_rows(spans: Seq<RedrawSpan>) -> bool {
    forall|i: int| 0 <= i < spans.len() ==> (#[trigger] spans[i]).height >= 1
}

/// Whether every page that is marked in a bitmap starts in a visible row.
pub open spec fn starts_visible(words: Seq<u32>, display: Framebuffer) -> bool {
    forall|page: nat|
        page < words.len() * 32 && #[trigger] crate::memory::page_is_dirty(words, page) && page
            * 4096 < display.size ==> page_row(display, page) < display.height
}

proof fn lemma_spans_ordered(
    words: Seq<u32>,
    display: Framebuffer,
    page: nat,
    spans: Seq<RedrawSpan>,
)
    requires
        display.stride > 0,
        spans_ordered(spans, display.height),
    ensures
        spans_ordered(spans_from(words, display, page, spans), display.height),
    decreases words.len() * 32 - page,
{
    if page < words.len() * 32 {
        if crate::memory::page_is_dirty(words, page) && page * 4096 < display.size {
            let y = page_row(display, page);
            let end = page_end(display, page);
            lemma_row_bounds(display, page);
            let next = with_rows(spans, y, end);
            let last = spans.len() - 1;
            assert forall|i: int, j: int| 0 <= i < j < next.len() implies (#[trigger] next[i]).y
                + next[i].height + 4 <= (#[trigger] next[j]).y by {
                assert(next[i] == spans[i]);
                if j < spans.len() {
                    assert(next[j].y == spans[j].y);
                } else if i < last {
                    assert(spans[i].y + spans[i].height + 4 <= spans[last].y);
                }
            }
            assert forall|i: int| 0 <= i < next.len() implies (#[trigger] next[i]).y
                + next[i].height <= display.height && (next[i].height >= 1 || next[i].y
                == display.height) by {
                if i < last {
                    assert(next[i] == spans[i]);
                } else if i == last {
                    assert(spans[last].y + spans[last].height <= display.height);
                }
            }
            lemma_spans_ordered(words, display, page + 1, next);
        } else {
            lemma_spans_ordered(words, display, page + 1, spans);
        }
    }
}

proof fn lemma_spans_hold_rows(
    words: Seq<u32>,
    display: Framebuffer,
    page: nat,
    spans: Seq<RedrawSpan>,
)
    requires
        display.stride > 0,
        starts_visible(words, display),
        hold_rows(spans),
    ensures
        hold_rows(spans_from(words, display, page, spans)),
    decreases words.len() * 32 - page,
{
    if page < words.len() * 32 {
        if crate::memory::page_is_dirty(words, page) && page * 4096 < display.size {
            let y = page_row(display, page);
            let end = page_end(display, page);
            lemma_row_bounds(display, page);
            let next = with_rows(spans, y, end);
            assert forall|i: int| 0 <= i < next.len() implies (#[trigger] next[i]).height
                >= 1 by {
                if i < spans.len() {
                    assert(spans[i].height >= 1);
                }
            }
            lemma_spans_hold_rows(words, display, page + 1, next);
        } else {
            lemma_spans_hold_rows(words, display, page + 1, spans);
        }
    }
}

proof fn lemma_no_page_no_span(words: Seq<u32>, display: Framebuffer, page: nat)
    requires
        forall|i: int| 0 <= i < words.len() ==> #[trigger] words[i] == 0,
    ensures
        spans_from(words, display, page, Seq::empty()) == Seq::<RedrawSpan>::empty(),
    decreases words.len() * 32 - page,
{
    if page < words.len() * 32 {
        let bit = 1u32 << ((page % 32) as u32);
        assert(0u32 & bit == 0) by (bit_vector);
        assert(words[(page / 32) as int] == 0);
        lemma_no_page_no_span(words, display, page + 1);
    }
}

proof fn lemma_stride<H: Host>(bus: BusModel<H>)
    requires
        bus.valid(),
    ensures
        bus.framebuffer matches Some(display) ==> display.stride > 0 && display.size
            == crate::machine::display_size(bus.config.framebuffer->0),
{
    if let Some(display) = bus.config.framebuffer {
        let height = display.height as int;
        assert(height * 0 == 0) by (nonlinear_arith);
        assert(display.width != 0);
    }
}

/// A report never fails. Its spans are in order, every visible row of a
/// recorded page is in one of them, and each holds a row if every recorded page
/// starts in a visible one. A second report right behind it is empty and
/// changes nothing.
pub proof fn law_reported_spans<H: Host>(m: MachineModel<H>)
    requires
        m.valid(),
    ensures
        ({
            let (r, after) = m.spans_taken();
            &&& r matches Ok(spans)
            &&& m.bus.framebuffer is None ==> spans.len() == 0
            &&& m.bus.framebuffer matches Some(display) ==> {
                let words = m.bus.memory.regions[2].kind->dirty->0;
                &&& m.bus.memory.records(2)
                &&& spans_ordered(spans, display.height)
                &&& starts_visible(words, display) ==> hold_rows(spans)
                &&& forall|page: nat| #[trigger]
                    m.bus.memory.recorded(2, page) && page * 4096 < display.size && page_row(
                        display,
                        page,
                    ) < page_end(display, page) ==> covered(
                        spans,
                        page_row(display, page),
                        page_end(display, page),
                    )
            }
            &&& after.spans_taken() == (
                Ok::<Seq<RedrawSpan>, MachineError>(Seq::empty()),
                after,
            )
        }),
{
    let (r, after) = m.spans_taken();
    if let Some(display) = m.bus.framebuffer {
        crate::machine::lemma_ram_regions(m.bus);
        lemma_stride(m.bus);
        let words = m.bus.memory.regions[2].kind->dirty->0;
        let clean = Seq::new(words.len(), |i: int| 0u32);
        let spans = spans_from(words, display, 0, Seq::empty());
        lemma_spans_ordered(words, display, 0, Seq::empty());
        if starts_visible(words, display) {
            lemma_spans_hold_rows(words, display, 0, Seq::empty());
        }
        assert forall|page: nat| #[trigger]
            m.bus.memory.recorded(2, page) && page * 4096 < display.size && page_row(display, page)
                < page_end(display, page) implies covered(
            spans,
            page_row(display, page),
            page_end(display, page),
        ) by {
            assert(page < words.len() * 32);
            law_written_rows_are_redrawn(words, display, page);
        }
        lemma_no_page_no_span(clean, display, 0);
        assert(after.spans_taken().1.bus.memory.regions =~= after.bus.memory.regions);
    }
}

/// Every visible pixel row that a write to display memory touches is in one of
/// the spans of the next report.
pub proof fn law_written_pixels_are_redrawn<H: Host>(
    m: MachineModel<H>,
    address: u64,
    data: Seq<u8>,
    k: int,
)
    requires
        m.valid(),
        m.bus.framebuffer matches Some(display) && address + data.len() <= FRAMEBUFFER_BASE
            + display.size && (address - FRAMEBUFFER_BASE + k) / (display.stride as int)
            < display.height,
        FRAMEBUFFER_BASE <= address < RAM_BASE,
        0 <= k < data.len(),
    ensures
        m.bus.memory.resolve(address, data.len(), true) is Ok,
        ({
            let written = m.with_memory(m.bus.memory.write_bytes(address, data));
            let row = (address - FRAMEBUFFER_BASE + k) / m.bus.framebuffer->0.stride as int;
            written.spans_taken().0 matches Ok(spans) && covered(spans, row, row + 1)
        }),
{
    let display = m.bus.framebuffer->0;
    let before = m.bus.memory;
    let memory = before.write_bytes(address, data);
    let written = m.with_memory(memory);
    let offset = address - FRAMEBUFFER_BASE;
    let row = (offset + k) / display.stride as int;
    crate::machine::lemma_ram_regions(m.bus);
    lemma_stride(m.bus);
    reveal_with_fuel(MemoryModel::find_from, 4);
    assert(before.find(address) == Some(2nat));
    let words = before.regions[2].kind->dirty->0;
    let first = (offset / 4096) as nat;
    let last = ((offset + data.len() - 1) / 4096) as nat;
    let page = ((offset + k) / 4096) as nat;
    let marked = crate::memory::pages_marked(words, first, last);
    assert(last / 32 < words.len());
    crate::memory::law_write_marks_its_pages(words, first, last, page);
    assert(memory.regions[2].kind->dirty->0 == marked);
    let s = display.stride as int;
    vstd::arithmetic::div_mod::lemma_div_is_ordered(page as int * 4096, offset + k, s);
    let end = if page * 4096 + 4095 < display.size - 1 {
        page as int * 4096 + 4095
    } else {
        display.size - 1
    };
    vstd::arithmetic::div_mod::lemma_div_is_ordered(offset + k, end, s);
    law_written_rows_are_redrawn(marked, display, page);
    let spans = spans_from(marked, display, 0, Seq::empty());
    let i = choose|i: int|
        0 <= i < spans.len() && (#[trigger] spans[i]).y <= page_row(display, page) && page_end(
            display,
            page,
        ) <= spans[i].y + spans[i].height;
    assert(spans[i].y <= row && row + 1 <= spans[i].y + spans[i].height);
}

fn add_rows(spans: &mut Vec<RedrawSpan>, y: u32, end: u32)
    ensures
        final(spans)@ == with_rows(old(spans)@, y as int, end as int),
{
    let count: usize = spans.len();
    if count > 0 {
        let last: RedrawSpan = spans[count - 1];
        if y as u64 <= last.y as u64 + last.height as u64 + 3 {
            if end > last.y && end - last.y > last.height {
                spans.set(count - 1, RedrawSpan { y: last.y, height: end - last.y });
            }
            assert(spans@ =~= with_rows(old(spans)@, y as int, end as int));
            return;
        }
    }
    if y <= end {
        spans.push(RedrawSpan { y, height: end - y });
    }
}

fn redraw_spans(words: &Vec<u32>, display: Framebuffer) -> (r: Vec<RedrawSpan>)
    requires
        display.stride > 0,
    ensures
        r@ == spans_from(words@, display, 0, Seq::empty()),
{
    let mut spans: Vec<RedrawSpan> = Vec::new();
    let mut index: usize = 0;
    while index < words.len()
        invariant
            index <= words@.len(),
            display.stride > 0,
            spans_from(words@, display, (index * 32) as nat, spans@) == spans_from(
                words@,
                display,
                0,
                Seq::empty(),
            ),
        decreases words@.len() - index,
    {
        let word: u32 = words[index];
        let mut bit: u32 = 0;
        while bit < 32
            invariant
                index < words@.len(),
                bit <= 32,
                display.stride > 0,
                word == words@[index as int],
                spans_from(words@, display, (index * 32 + bit) as nat, spans@) == spans_from(
                    words@,
                    display,
                    0,
                    Seq::empty(),
                ),
            decreases 32 - bit,
        {
            let ghost page: nat = (index * 32 + bit) as nat;
            assert(page / 32 == index && page % 32 == bit);
            if word & (1u32 << bit) != 0 && (index as u64) < 0x10_0000 {
                let byte: u64 = (index as u64 * 32 + bit as u64) * 4096;
                assert(byte == page * 4096);
                if byte < display.size as u64 {
                    proof {
                        lemma_row_bounds(display, page);
                    }
                    let last: u64 = if byte + 4095 < display.size as u64 - 1 {
                        byte + 4095
                    } else {
                        display.size as u64 - 1
                    };
                    let rows: u64 = last / display.stride as u64;
                    let end: u32 = if rows < display.height as u64 {
                        rows as u32 + 1
                    } else {
                        display.height
                    };
                    assert(end == page_end(display, page));
                    add_rows(&mut spans, (byte / display.stride as u64) as u32, end);
                }
            }
            bit += 1;
        }
        index += 1;
    }
    spans
}

impl<H: Host> MachineModel<H> {
    /// The spans of the display rows that were written since the last report,
    /// after which none count as written.
    pub open spec fn spans_taken(self) -> (
        Result<Seq<RedrawSpan>, MachineError>,
        MachineModel<H>,
    ) {
        match self.bus.framebuffer {
            None => (Ok(Seq::empty()), self),
            Some(display) => {
                let memory = self.bus.memory;
                let id = display.region;
                let region = memory.regions[id.0 as int];
                if id.0 >= memory.regions.len() || region.kind is Device {
                    (Err(MachineError::Memory(MemoryError::InvalidRegion(id.0))), self)
                } else {
                    match region.kind->dirty {
                        None => (Ok(Seq::empty()), self),
                        Some(words) => (
                            Ok(spans_from(words, display, 0, Seq::empty())),
                            self.with_memory(
                                MemoryModel {
                                    regions: memory.regions.update(
                                        id.0 as int,
                                        crate::memory::with_bitmap(
                                            region,
                                            Seq::new(words.len(), |i: int| 0u32),
                                        ),
                                    ),
                                    ..memory
                                },
                            ),
                        ),
                    }
                }
            },
        }
    }

    /// The bytes that a report speaks of.
    pub open spec fn display_bytes(self, update: FramebufferUpdate) -> Option<Seq<u8>> {
        let start = update.y * update.stride;
        let len = update.height * update.stride;
        let address = (FRAMEBUFFER_BASE + start) as u64;
        if start > u32::MAX || len > u32::MAX || self.bus.memory.resolve(
            address,
            len as nat,
            false,
        ) is Err {
            None
        } else {
            Some(self.bus.memory.bytes_at(address, len as nat))
        }
    }

    /// The report of a span of display rows.
    pub open spec fn update_of(self, span: RedrawSpan) -> Result<
        Option<FramebufferUpdate>,
        MachineError,
    > {
        match self.bus.framebuffer {
            None => Ok(None),
            Some(display) => {
                let start = span.y * display.stride;
                let len = span.height * display.stride;
                if start > u32::MAX || len > u32::MAX {
                    Err(MachineError::InvalidFramebuffer)
                } else {
                    let address = (FRAMEBUFFER_BASE + start) as u64;
                    match crate::guest_memory::inaccessible(
                        self.bus.memory,
                        address,
                        len as nat,
                        false,
                    ) {
                        Some(error) => Err(MachineError::Memory(error)),
                        None => Ok(
                            Some(
                                FramebufferUpdate {
                                    arena_offset: ArenaOffset(
                                        self.bus.memory.resolve(
                                            address,
                                            len as nat,
                                            false,
                                        )->Ok_0 as u32,
                                    ),
                                    x: 0,
                                    y: span.y,
                                    width: display.width,
                                    height: span.height,
                                    stride: display.stride,
                                },
                            ),
                        ),
                    }
                }
            },
        }
    }
}

impl<H: Host> Machine<H> {
    /// Returns and consumes framebuffer dirty-page row spans.
    ///
    /// # Errors
    ///
    /// Returns a memory-map error if the framebuffer region is inconsistent.
    pub fn take_redraw_spans(&mut self) -> (r: Result<Vec<RedrawSpan>, MachineError>)
        requires
            old(self)@.valid(),
        ensures
            match r {
                Ok(spans) => old(self)@.spans_taken() == (
                    Ok::<Seq<RedrawSpan>, MachineError>(spans@),
                    final(self)@,
                ),
                Err(error) => old(self)@.spans_taken() == (
                    Err::<Seq<RedrawSpan>, MachineError>(error),
                    final(self)@,
                ),
            },
            final(self)@.valid(),
    {
        let display: Framebuffer = match self.bus.framebuffer {
            Some(display) => display,
            None => {
                let none: Vec<RedrawSpan> = Vec::new();
                assert(none@ =~= Seq::empty());
                return Ok(none);
            },
        };
        proof {
            crate::machine::lemma_ram_regions(self@.bus);
            lemma_stride(self@.bus);
            let words = self@.bus.memory.regions[2].kind->dirty->0;
            let clean = Seq::new(words.len(), |i: int| 0u32);
            crate::memory::lemma_bitmap_follows(self@.bus.memory, 2, clean);
        }
        let snapshot: DirtySnapshot = match self.bus.memory.take_dirty_pages(display.region) {
            Ok(snapshot) => snapshot,
            Err(error) => {
                return Err(MachineError::from(error));
            },
        };
        Ok(redraw_spans(&snapshot.words, display))
    }

    /// Describes the framebuffer bytes covered by a dirty row span.
    ///
    /// # Errors
    ///
    /// Returns a memory-map error if the framebuffer range is inconsistent.
    pub fn framebuffer_update(&mut self, span: RedrawSpan) -> (r: Result<
        Option<FramebufferUpdate>,
        MachineError,
    >)
        requires
            old(self)@.valid(),
        ensures
            r == old(self)@.update_of(span),
            final(self)@ == old(self)@,
    {
        let display: Framebuffer = match self.bus.framebuffer {
            Some(display) => display,
            None => {
                return Ok(None);
            },
        };
        let start: u32 = match span.y.checked_mul(display.stride) {
            Some(start) => start,
            None => {
                return Err(MachineError::InvalidFramebuffer);
            },
        };
        let len: u32 = match span.height.checked_mul(display.stride) {
            Some(len) => len,
            None => {
                return Err(MachineError::InvalidFramebuffer);
            },
        };
        let address: u64 = FRAMEBUFFER_BASE + start as u64;
        match self.bus.memory.ram_range(GuestAddress(address), len as usize, false) {
            Ok(offset) => Ok(
                Some(
                    FramebufferUpdate {
                        arena_offset: ArenaOffset(offset as u32),
                        x: 0,
                        y: span.y,
                        width: display.width,
                        height: span.height,
                        stride: display.stride,
                    },
                ),
            ),
            Err(error) => Err(MachineError::from(error)),
        }
    }

    #[must_use]
    pub fn framebuffer_bytes(&self, update: FramebufferUpdate) -> (r: Option<&[u8]>)
        requires
            self@.valid(),
        ensures
            match self@.display_bytes(update) {
                Some(data) => r matches Some(shown) && shown@ == data,
                None => r is None,
            },
    {
        match (update.height.checked_mul(update.stride), update.y.checked_mul(update.stride)) {
            (Some(len), Some(start)) => match self.bus.memory.ram_view(
                GuestAddress(FRAMEBUFFER_BASE + start as u64),
                len as usize,
            ) {
                Ok(data) => Some(data),
                Err(_) => None,
            },
            _ => None,
        }
    }

    /// Reads bytes from guest RAM for host services and validation.
    ///
    /// # Errors
    ///
    /// Returns an error when the requested range is not RAM.
    pub fn read_ram(&self, address: u64, len: usize) -> (r: Result<&[u8], MachineError>)
        requires
            self@.valid(),
        ensures
            match crate::guest_memory::inaccessible(self@.bus.memory, address, len as nat, false) {
                Some(error) => r matches Err(e) && e == MachineError::Memory(error),
                None => r matches Ok(data) && data@ == self@.bus.memory.bytes_at(
                    address,
                    len as nat,
                ),
            },
    {
        match self.bus.memory.ram_view(GuestAddress(address), len) {
            Ok(data) => Ok(data),
            Err(error) => Err(MachineError::from(error)),
        }
    }

    /// Writes bytes into guest RAM for host services and validation.
    ///
    /// # Errors
    ///
    /// Returns an error when the requested range is not writable RAM.
    pub fn write_ram(&mut self, address: u64, data: &[u8]) -> (r: Result<(), MachineError>)
        requires
            old(self)@.valid(),
        ensures
            match crate::guest_memory::inaccessible(
                old(self)@.bus.memory,
                address,
                data@.len(),
                true,
            ) {
                Some(error) => r == Err::<(), MachineError>(MachineError::Memory(error)),
                None => r == Ok::<(), MachineError>(()),
            },
            final(self)@ == old(self)@.with_memory(
                old(self)@.bus.memory.write_bytes(address, data@),
            ),
            final(self)@.valid(),
    {
        self.copy_to_ram(address, data)
    }
}

} // verus!

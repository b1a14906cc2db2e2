use crate::error::BootError;
use crate::image::{elf_parse, parse_elf, ElfImage, ElfImageView, ProgramHeader, EM_X86_64, PT_LOAD};
use vstd::prelude::*;

verus! {

/// Size in bytes of one page of physical memory.
pub const PAGE_SIZE: u64 = 4096;

/// A loadable segment: `file_size` bytes found at `offset` in the image belong
/// at address `vaddr`, followed by zeros up to `mem_size` bytes.
#[derive(Clone, Copy, Debug, PartialEq, Eq, Structural)]
pub struct ProgramSegment {
    pub offset: u64,
    pub file_size: u64,
    pub vaddr: u64,
    pub mem_size: u64,
}

impl ProgramSegment {
    /// One past the last address the segment occupies.
    pub open spec fn end(self) -> int {
        self.vaddr + self.mem_size
    }

    /// The segment is no larger on disk than in memory, its bytes lie inside
    /// an image of `image_len` bytes, and its last address is representable.
    pub open spec fn fits(self, image_len: int) -> bool {
        &&& self.file_size <= self.mem_size
        &&& self.offset + self.file_size <= image_len
        &&& self.end() <= u64::MAX
    }

    /// Whether the two segments share no address.
    pub open spec fn disjoint_from(self, other: ProgramSegment) -> bool {
        self.end() <= other.vaddr || other.end() <= self.vaddr
    }
}

impl ProgramHeader {
    /// The header read as a segment, dropping its kind.
    pub open spec fn segment(self) -> ProgramSegment {
        ProgramSegment {
            offset: self.offset,
            file_size: self.file_size,
            vaddr: self.vaddr,
            mem_size: self.mem_size,
        }
    }
}

/// The test that picks the loadable entries of a table.
pub open spec fn loadable_kind() -> spec_fn(ProgramHeader) -> bool {
    |h: ProgramHeader| h.is_loadable()
}

/// The step from a table entry to the segment it describes.
pub open spec fn as_segment() -> spec_fn(ProgramHeader) -> ProgramSegment {
    |h: ProgramHeader| h.segment()
}

/// The loadable entries of a program-header table, in table order. Entries of
/// every other kind are ignored.
pub open spec fn segments_of(headers: Seq<ProgramHeader>) -> Seq<ProgramSegment> {
    headers.filter(loadable_kind()).map_values(as_segment())
}

/// The addresses `[low, high)` that the loadable segments of an image span.
#[derive(Clone, Copy, Debug, PartialEq, Eq, Structural)]
pub struct LoadRange {
    pub low: u64,
    pub high: u64,
}

impl LoadRange {
    /// `low` is the least start address among `segments` and `high` the
    /// greatest end address.
    pub open spec fn spans(self, segments: Seq<ProgramSegment>) -> bool {
        &&& exists|i: int| 0 <= i < segments.len() && #[trigger] segments[i].vaddr == self.low
        &&& forall|i: int| 0 <= i < segments.len() ==> self.low <= #[trigger] segments[i].vaddr
        &&& exists|i: int| 0 <= i < segments.len() && #[trigger] segments[i].end() == self.high
        &&& forall|i: int| 0 <= i < segments.len() ==> #[trigger] segments[i].end() <= self.high
    }

    /// Number of bytes in the range.
    pub open spec fn byte_len(self) -> int {
        self.high - self.low
    }

    /// Number of pages that cover the range: its length rounded up to a whole
    /// number of pages.
    pub open spec fn pages(self) -> int {
        (self.byte_len() + 4095) / 4096
    }

    /// Number of pages to reserve, starting at `low`, to cover the range.
    pub fn page_count(&self) -> (count: u64)
        requires
            self.low <= self.high,
        ensures
            count == self.pages(),
    {
        let len: u64 = self.high - self.low;
        let whole: u64 = len / PAGE_SIZE;
        if len % PAGE_SIZE == 0 {
            whole
        } else {
            whole + 1
        }
    }
}

/// Whether an image of `image_len` bytes can be loaded: it is a 64-bit image
/// for x86-64 with at least one loadable segment, and each loadable segment
/// fits.
pub open spec fn loadable_image(image: ElfImageView, image_len: int) -> bool {
    &&& image.wide
    &&& image.machine == EM_X86_64
    &&& segments_of(image.headers).len() > 0
    &&& forall|i: int|
        0 <= i < segments_of(image.headers).len() ==> (#[trigger] segments_of(image.headers)[i]).fits(
            image_len,
        )
}

/// Memory after one segment has been put in place. `memory` stands for the
/// addresses from `base` on: the segment's file bytes land at its address,
/// zeros follow up to its in-memory size, and every other byte stays.
pub open spec fn with_segment(
    memory: Seq<u8>,
    image: Seq<u8>,
    segment: ProgramSegment,
    base: int,
) -> Seq<u8> {
    Seq::new(
        memory.len(),
        |i: int|
            {
                let at = base + i - segment.vaddr;
                if 0 <= at < segment.file_size {
                    image[segment.offset + at]
                } else if segment.file_size <= at < segment.mem_size {
                    0u8
                } else {
                    memory[i]
                }
            },
    )
}

/// Memory after the segments have been put in place one after another.
pub open spec fn placed(
    memory: Seq<u8>,
    image: Seq<u8>,
    segments: Seq<ProgramSegment>,
    base: int,
) -> Seq<u8>
    decreases segments.len(),
{
    if segments.len() == 0 {
        memory
    } else {
        with_segment(placed(memory, image, segments.drop_last(), base), image, segments.last(), base)
    }
}

/// The mathematical value of a [`LoadPlan`].
pub struct LoadPlanView {
    pub entry: u64,
    pub range: LoadRange,
    pub segments: Seq<ProgramSegment>,
    pub image: Seq<u8>,
}

impl LoadPlanView {
    /// There is a segment, every segment fits the image, and the range is the
    /// one the segments span.
    pub open spec fn wf(self) -> bool {
        &&& self.segments.len() > 0
        &&& forall|i: int|
            0 <= i < self.segments.len() ==> (#[trigger] self.segments[i]).fits(self.image.len() as int)
        &&& self.range.spans(self.segments)
    }
}

/// A validated image ready to be placed: where it goes, what goes there, and
/// where execution starts.
pub struct LoadPlan<'a> {
    entry: u64,
    range: LoadRange,
    segments: Vec<ProgramSegment>,
    image: &'a [u8],
}

impl<'a> View for LoadPlan<'a> {
    type V = LoadPlanView;

    closed spec fn view(&self) -> LoadPlanView {
        LoadPlanView {
            entry: self.entry,
            range: self.range,
            segments: self.segments@,
            image: self.image@,
        }
    }
}

/// The loadable entries of a longer table begin with those of each of its
/// prefixes.
proof fn lemma_segments_prefix(headers: Seq<ProgramHeader>, n: int)
    requires
        0 <= n <= headers.len(),
    ensures
        segments_of(headers.take(n)).len() <= segments_of(headers).len(),
        forall|k: int|
            0 <= k < segments_of(headers.take(n)).len() ==> segments_of(headers)[k] == segments_of(
                headers.take(n),
            )[k],
{
    let front = headers.take(n);
    let back = headers.skip(n);
    assert(front + back =~= headers);
    Seq::filter_distributes_over_add(front, back, loadable_kind());
}

/// Taking one more header adds its segment if it is loadable, and nothing
/// otherwise.
proof fn lemma_segments_step(headers: Seq<ProgramHeader>, n: int)
    requires
        0 <= n < headers.len(),
    ensures
        segments_of(headers.take(n + 1)) == if headers[n].is_loadable() {
            segments_of(headers.take(n)).push(headers[n].segment())
        } else {
            segments_of(headers.take(n))
        },
{
    reveal(Seq::filter);
    assert(headers.take(n + 1).drop_last() =~= headers.take(n));
    assert(headers.take(n + 1).last() == headers[n]);
    if headers[n].is_loadable() {
        assert(segments_of(headers.take(n + 1)) =~= segments_of(headers.take(n)).push(
            headers[n].segment(),
        ));
    }
}

impl<'a> LoadPlan<'a> {
    #[verifier::type_invariant]
    spec fn well_formed(self) -> bool {
        self@.wf()
    }

    /// Address at which execution of the image starts.
    pub fn entry(&self) -> (entry: u64)
        ensures
            entry == self@.entry,
    {
        self.entry
    }

    /// The addresses the image occupies once placed.
    pub fn range(&self) -> (range: LoadRange)
        ensures
            range == self@.range,
            self@.wf(),
    {
        proof {
            use_type_invariant(self);
        }
        self.range
    }

    /// Number of pages to reserve at `range().low`.
    pub fn page_count(&self) -> (count: u64)
        ensures
            count == self@.range.pages(),
    {
        proof {
            use_type_invariant(self);
        }
        self.range.page_count()
    }

    /// Number of loadable segments.
    pub fn segment_count(&self) -> (count: usize)
        ensures
            count == self@.segments.len(),
    {
        self.segments.len()
    }

    /// The `index`-th loadable segment, in table order.
    pub fn segment(&self, index: usize) -> (segment: Option<ProgramSegment>)
        ensures
            segment == if index < self@.segments.len() {
                Some(self@.segments[index as int])
            } else {
                None
            },
    {
        if index < self.segments.len() {
            Some(self.segments[index])
        } else {
            None
        }
    }
}

/// Puts one segment in place. `memory` holds the addresses from `base` on.
///
/// Afterwards the first `file_size` bytes at the segment's address equal the
/// image's bytes from `offset` on, the bytes from there up to `mem_size` are
/// zero, and no other byte has changed.
pub fn load_segment(memory: &mut [u8], base: u64, image: &[u8], segment: &ProgramSegment)
    requires
        segment.fits(image@.len() as int),
        base <= segment.vaddr,
        segment.end() - base <= old(memory)@.len(),
    ensures
        final(memory)@ == with_segment(old(memory)@, image@, *segment, base as int),
{
    let memory_len: usize = memory.len();
    let image_len: usize = image.len();
    assert(segment.vaddr - base + segment.mem_size <= memory_len);
    assert(segment.offset + segment.file_size <= image_len);
    let start: usize = (segment.vaddr - base) as usize;
    let source: usize = segment.offset as usize;
    let file_size: usize = segment.file_size as usize;
    let mem_size: usize = segment.mem_size as usize;
    let ghost before = memory@;
    let mut i: usize = 0;
    while i < file_size
        invariant
            i <= file_size <= mem_size,
            start + mem_size <= memory_len,
            source + file_size <= image_len,
            memory@.len() == memory_len == before.len(),
            image@.len() == image_len,
            forall|k: int|
                0 <= k < memory@.len() ==> #[trigger] memory@[k] == if start <= k < start + i {
                    image@[source + k - start]
                } else {
                    before[k]
                },
        decreases file_size - i,
    {
        memory[start + i] = image[source + i];
        i += 1;
    }
    while i < mem_size
        invariant
            file_size <= i <= mem_size,
            start + mem_size <= memory_len,
            source + file_size <= image_len,
            memory@.len() == memory_len == before.len(),
            image@.len() == image_len,
            forall|k: int|
                0 <= k < memory@.len() ==> #[trigger] memory@[k] == if start <= k < start + file_size {
                    image@[source + k - start]
                } else if start + file_size <= k < start + i {
                    0u8
                } else {
                    before[k]
                },
        decreases mem_size - i,
    {
        memory[start + i] = 0;
        i += 1;
    }
    proof {
        let want = with_segment(before, image@, *segment, base as int);
        assert(memory@ =~= want);
    }
}

/// Validates a parsed image against the bytes it was parsed from and works out
/// where its loadable segments go.
///
/// Succeeds exactly when the image is loadable; every failure is
/// `ImageFormat`. The plan lists the loadable segments in table order, keeps
/// the image's entry address, and its range is the lowest start and the
/// highest end among those segments.
pub fn plan_load<'a>(image: &ElfImage, bytes: &'a [u8]) -> (plan: Result<LoadPlan<'a>, BootError>)
    ensures
        plan is Ok <==> loadable_image(image@, bytes@.len() as int),
        plan matches Err(e) ==> e == BootError::ImageFormat,
        plan matches Ok(p) ==> {
            &&& p@.entry == image@.entry
            &&& p@.segments == segments_of(image@.headers)
            &&& p@.image == bytes@
            &&& p@.wf()
        },
{
    if !image.wide || image.machine != EM_X86_64 {
        return Err(BootError::ImageFormat);
    }
    let ghost headers = image.headers@;
    let mut segments: Vec<ProgramSegment> = Vec::new();
    let mut low: u64 = u64::MAX;
    let mut high: u64 = 0;
    let mut i: usize = 0;
    proof {
        reveal(Seq::filter);
        assert(segments_of(headers.take(0)) =~= Seq::<ProgramSegment>::empty());
    }
    while i < image.headers.len()
        invariant
            headers == image.headers@,
            i <= headers.len(),
            segments@ == segments_of(headers.take(i as int)),
            forall|k: int| 0 <= k < segments@.len() ==> (#[trigger] segments@[k]).fits(bytes@.len() as int),
            segments@.len() > 0 ==> (LoadRange { low, high }).spans(segments@),
        decreases headers.len() - i,
    {
        let header = image.headers[i];
        proof {
            lemma_segments_step(headers, i as int);
            lemma_segments_prefix(headers, i as int + 1);
        }
        if header.kind == PT_LOAD {
            let segment = ProgramSegment {
                offset: header.offset,
                file_size: header.file_size,
                vaddr: header.vaddr,
                mem_size: header.mem_size,
            };
            let image_len: u64 = bytes.len() as u64;
            let fits = segment.file_size <= segment.mem_size && segment.file_size <= image_len
                && segment.offset <= image_len - segment.file_size && segment.vaddr <= u64::MAX
                - segment.mem_size;
            if !fits {
                proof {
                    let bad = segments@.len() as int;
                    assert(segments_of(headers)[bad] == segment);
                    assert(!segment.fits(bytes@.len() as int));
                }
                return Err(BootError::ImageFormat);
            }
            let end: u64 = segment.vaddr + segment.mem_size;
            let ghost before = segments@;
            let ghost old_low = low;
            let ghost old_high = high;
            let first = segments.len() == 0;
            segments.push(segment);
            let ghost last = before.len() as int;
            if first || segment.vaddr < low {
                low = segment.vaddr;
            }
            if first || end > high {
                high = end;
            }
            proof {
                assert(segments@[last].vaddr == segment.vaddr);
                assert(segments@[last].end() == end);
                assert forall|k: int| 0 <= k < segments@.len() implies low <= #[trigger] segments@[k].vaddr
                    && segments@[k].end() <= high by {
                    if k < last {
                        assert(segments@[k] == before[k]);
                        assert(old_low <= before[k].vaddr);
                        assert(before[k].end() <= old_high);
                    }
                }
                if low != segment.vaddr {
                    let at = choose|k: int| 0 <= k < before.len() && #[trigger] before[k].vaddr == old_low;
                    assert(segments@[at] == before[at]);
                    assert(segments@[at].vaddr == low);
                }
                if high != end {
                    let at = choose|k: int| 0 <= k < before.len() && #[trigger] before[k].end() == old_high;
                    assert(segments@[at] == before[at]);
                    assert(segments@[at].end() == high);
                }
                assert((LoadRange { low, high }).spans(segments@));
            }
        }
        i += 1;
    }
    proof {
        assert(headers.take(headers.len() as int) =~= headers);
    }
    if segments.len() == 0 {
        return Err(BootError::ImageFormat);
    }
    Ok(LoadPlan { entry: image.entry, range: LoadRange { low, high }, segments, image: bytes })
}

impl<'a> LoadPlan<'a> {
    /// Puts every loadable segment in place, in table order, and returns the
    /// entry address. `memory` is the reserved region, whose first byte is the
    /// byte at `range().low`.
    ///
    /// Fails with `Allocation`, leaving `memory` as it was, exactly when the
    /// region is shorter than the range.
    pub fn place(&self, memory: &mut [u8]) -> (entry: Result<u64, BootError>)
        ensures
            entry is Ok <==> old(memory)@.len() >= self@.range.byte_len(),
            entry matches Err(e) ==> e == BootError::Allocation && final(memory)@ == old(memory)@,
            entry matches Ok(address) ==> {
                &&& address == self@.entry
                &&& final(memory)@ == placed(
                    old(memory)@,
                    self@.image,
                    self@.segments,
                    self@.range.low as int,
                )
            },
    {
        proof {
            use_type_invariant(self);
        }
        let base: u64 = self.range.low;
        let needed: u64 = self.range.high - self.range.low;
        if (memory.len() as u64) < needed {
            return Err(BootError::Allocation);
        }
        let ghost before = memory@;
        let ghost segments = self.segments@;
        let mut i: usize = 0;
        while i < self.segments.len()
            invariant
                i <= segments.len(),
                segments == self.segments@,
                self@.wf(),
                base == self.range.low,
                memory@.len() == before.len(),
                before.len() >= self@.range.byte_len(),
                memory@ == placed(before, self.image@, segments.take(i as int), base as int),
            decreases segments.len() - i,
        {
            let segment = self.segments[i];
            assert(self@.segments[i as int].fits(self@.image.len() as int));
            assert(base <= self@.segments[i as int].vaddr);
            assert(self@.segments[i as int].end() <= self@.range.high);
            load_segment(memory, base, self.image, &segment);
            proof {
                assert(segments.take(i as int + 1).drop_last() =~= segments.take(i as int));
                assert(segments.take(i as int + 1).last() == segment);
            }
            i += 1;
        }
        proof {
            assert(segments.take(segments.len() as int) =~= segments);
        }
        Ok(self.entry)
    }
}

/// Finishes a load once the firmware has answered the request for the plan's
/// pages: `reserved` is the region it handed out, or `None` if it refused.
///
/// Fails with `Allocation` exactly when there is no region or it is shorter
/// than the plan's range; otherwise the segments are placed and the entry
/// address is returned.
pub fn complete_load(plan: &LoadPlan, reserved: Option<&mut [u8]>) -> (entry: Result<u64, BootError>)
    ensures
        entry is Ok <==> (reserved matches Some(memory) && memory@.len() >= plan@.range.byte_len()),
        entry matches Err(e) ==> e == BootError::Allocation,
        reserved matches Some(memory) ==> final(memory)@ == if entry is Ok {
            placed(memory@, plan@.image, plan@.segments, plan@.range.low as int)
        } else {
            memory@
        },
        entry matches Ok(address) ==> address == plan@.entry,
{
    match reserved {
        Some(memory) => plan.place(memory),
        None => Err(BootError::Allocation),
    }
}

/// Parses `bytes` as an executable image and plans its load.
///
/// Fails with `ImageFormat` where the bytes do not parse or the parsed image
/// is not loadable, and in no other case.
///
/// This is for machines with 64-bit words, as the images it accepts are: the
/// parser is not safe to call with narrower ones.
pub fn plan_image<'a>(bytes: &'a [u8]) -> (plan: Result<LoadPlan<'a>, BootError>)
    requires
        usize::BITS == 64,
    ensures
        plan is Ok <==> (elf_parse(bytes@, usize::BITS as int) matches Some(image) && loadable_image(
            image,
            bytes@.len() as int,
        )),
        plan matches Err(e) ==> e == BootError::ImageFormat,
        plan matches Ok(p) ==> {
            &&& p@.entry == elf_parse(bytes@, usize::BITS as int)->0.entry
            &&& p@.segments == segments_of(elf_parse(bytes@, usize::BITS as int)->0.headers)
            &&& p@.image == bytes@
            &&& p@.wf()
        },
{
    match parse_elf(bytes) {
        Ok(image) => plan_load(&image, bytes),
        Err(_) => Err(BootError::ImageFormat),
    }
}

/// The bytes of `memory`, which holds the addresses from `base` on, at the
/// segment's place are its file bytes followed by zeros.
pub open spec fn holds_segment(
    memory: Seq<u8>,
    image: Seq<u8>,
    segment: ProgramSegment,
    base: int,
) -> bool {
    &&& forall|k: int|
        0 <= k < segment.file_size ==> #[trigger] memory[segment.vaddr - base + k] == image[segment.offset
            + k]
    &&& forall|k: int|
        segment.file_size <= k < segment.mem_size ==> #[trigger] memory[segment.vaddr - base + k] == 0u8
}

/// The range that a list of segments spans is unique: it is the least start
/// and the greatest end, whichever way it was computed.
pub proof fn lemma_range_unique(a: LoadRange, b: LoadRange, segments: Seq<ProgramSegment>)
    requires
        a.spans(segments),
        b.spans(segments),
    ensures
        a == b,
{
}

/// A range that spans a list of segments contains each of them, and is not
/// empty in the sense that `low <= high`.
pub proof fn lemma_range_contains(range: LoadRange, segments: Seq<ProgramSegment>, i: int)
    requires
        range.spans(segments),
        0 <= i < segments.len(),
    ensures
        range.low <= segments[i].vaddr,
        segments[i].end() <= range.high,
        range.low <= range.high,
{
}

/// Right after a segment is put in place, its place in memory holds its file
/// bytes followed by zeros.
pub proof fn lemma_segment_copied(
    memory: Seq<u8>,
    image: Seq<u8>,
    segment: ProgramSegment,
    base: int,
)
    requires
        base <= segment.vaddr,
        segment.end() - base <= memory.len(),
        segment.file_size <= segment.mem_size,
    ensures
        holds_segment(with_segment(memory, image, segment, base), image, segment, base),
        with_segment(memory, image, segment, base).len() == memory.len(),
{
}

/// Placing segments never changes the size of memory.
pub proof fn lemma_placed_len(
    memory: Seq<u8>,
    image: Seq<u8>,
    segments: Seq<ProgramSegment>,
    base: int,
)
    ensures
        placed(memory, image, segments, base).len() == memory.len(),
    decreases segments.len(),
{
    if segments.len() > 0 {
        lemma_placed_len(memory, image, segments.drop_last(), base);
    }
}

/// Where no two segments share an address, every one of them is intact once
/// all have been placed: its file bytes are at its address, followed by zeros
/// up to its in-memory size.
pub proof fn lemma_placed_holds_each(
    memory: Seq<u8>,
    image: Seq<u8>,
    segments: Seq<ProgramSegment>,
    base: int,
    i: int,
)
    requires
        0 <= i < segments.len(),
        forall|k: int|
            0 <= k < segments.len() ==> {
                &&& base <= (#[trigger] segments[k]).vaddr
                &&& segments[k].end() - base <= memory.len()
                &&& segments[k].file_size <= segments[k].mem_size
            },
        forall|j: int, k: int|
            0 <= j < k < segments.len() ==> (#[trigger] segments[j]).disjoint_from(#[trigger] segments[k]),
    ensures
        holds_segment(placed(memory, image, segments, base), image, segments[i], base),
    decreases segments.len(),
{
    let front = segments.drop_last();
    let last = segments.last();
    let earlier = placed(memory, image, front, base);
    lemma_placed_len(memory, image, front, base);
    if i == segments.len() - 1 {
        lemma_segment_copied(earlier, image, last, base);
    } else {
        assert forall|k: int| 0 <= k < front.len() implies {
            &&& base <= (#[trigger] front[k]).vaddr
            &&& front[k].end() - base <= memory.len()
            &&& front[k].file_size <= front[k].mem_size
        } by {
            assert(front[k] == segments[k]);
        }
        assert forall|j: int, k: int| 0 <= j < k < front.len() implies (#[trigger] front[j]).disjoint_from(
            #[trigger] front[k],
        ) by {
            assert(front[j] == segments[j]);
            assert(front[k] == segments[k]);
        }
        lemma_placed_holds_each(memory, image, front, base, i);
        assert(front[i] == segments[i]);
        assert(segments[i].disjoint_from(segments[segments.len() - 1]));
        let after = with_segment(earlier, image, last, base);
        let segment = segments[i];
        assert forall|k: int| 0 <= k < segment.mem_size implies #[trigger] after[segment.vaddr - base + k]
            == earlier[segment.vaddr - base + k] by {}
        assert(holds_segment(after, image, segment, base));
    }
}

} // verus!

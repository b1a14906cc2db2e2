use vstd::prelude::*;

verus! {

/// Program-header kind of a segment that must be copied into memory.
pub const PT_LOAD: u32 = 1;

/// Machine identifier of the x86-64 architecture.
pub const EM_X86_64: u16 = 62;

/// One entry of an image's program-header table, reduced to what loading reads.
#[derive(Clone, Copy, Debug, PartialEq, Eq, Structural)]
pub struct ProgramHeader {
    pub kind: u32,
    pub offset: u64,
    pub vaddr: u64,
    pub file_size: u64,
    pub mem_size: u64,
}

impl ProgramHeader {
    pub open spec fn is_loadable(self) -> bool {
        self.kind == PT_LOAD
    }

    /// One past the last address the segment occupies in memory.
    pub open spec fn end(self) -> int {
        self.vaddr + self.mem_size
    }
}

/// What loading reads of a parsed executable image.
#[derive(Debug)]
pub struct ElfImage {
    /// Absolute address of the first instruction.
    pub entry: u64,
    /// Whether the image is of the 64-bit class.
    pub wide: bool,
    /// Machine identifier from the image header.
    pub machine: u16,
    /// The program-header table, in file order.
    pub headers: Vec<ProgramHeader>,
}

/// The mathematical value of an [`ElfImage`].
pub struct ElfImageView {
    pub entry: u64,
    pub wide: bool,
    pub machine: u16,
    pub headers: Seq<ProgramHeader>,
}

impl View for ElfImage {
    type V = ElfImageView;

    open spec fn view(&self) -> ElfImageView {
        ElfImageView {
            entry: self.entry,
            wide: self.wide,
            machine: self.machine,
            headers: self.headers@,
        }
    }
}

/// `goblin::error::Error`, which says why bytes did not parse. Nothing is
/// read from it.
#[verifier::external_type_specification]
#[verifier::external_body]
pub struct ExGoblinError(goblin::error::Error);

/// What `goblin::elf::Elf::parse` makes of a byte sequence: `None` where it
/// reports an error, else the entry address, class, machine and program
/// headers of the image it returns. The parser computes offsets in `usize`, so
/// what it returns can depend on how many bits, `word_bits`, a `usize` has.
pub uninterp spec fn elf_parse(bytes: Seq<u8>, word_bits: int) -> Option<ElfImageView>;

/// Calls `goblin::elf::Elf::parse` and keeps the entry address, the class, the
/// machine identifier and the program headers of its result. The contract only
/// gives that result its name, [`elf_parse`]; nothing is claimed about which
/// byte sequences parse.
///
/// The parser adds and multiplies offsets read from the image in `usize`
/// without checking. With 32-bit words a crafted image makes that arithmetic
/// overflow, so only machines with 64-bit words are admitted.
#[verifier::external_body]
pub(crate) fn parse_elf(bytes: &[u8]) -> (parsed: Result<ElfImage, goblin::error::Error>)
    requires
        usize::BITS == 64,
    ensures
        parsed is Ok <==> elf_parse(bytes@, usize::BITS as int) is Some,
        parsed matches Ok(image) ==> elf_parse(bytes@, usize::BITS as int) == Some(image@),
{
    let elf = goblin::elf::Elf::parse(bytes)?;
    let mut headers = Vec::new();
    for ph in elf.program_headers.iter() {
        headers.push(ProgramHeader {
            kind: ph.p_type,
            offset: ph.p_offset,
            vaddr: ph.p_vaddr,
            file_size: ph.p_filesz,
            mem_size: ph.p_memsz,
        });
    }
    Ok(ElfImage { entry: elf.entry, wide: elf.is_64, machine: elf.header.e_machine, headers })
}

} // verus!

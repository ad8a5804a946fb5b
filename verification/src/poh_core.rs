//! The register interface of one proof-of-history core of the accelerator:
//! which bytes go to which register, and how the control register is read.
use vstd::prelude::*;
use vstd::bytes::{
    spec_u32_from_le_bytes, spec_u32_to_le_bytes, spec_u64_from_le_bytes, spec_u64_to_le_bytes,
    u32_from_le_bytes, u32_to_le_bytes, u64_to_le_bytes,
};
use vstd::slice::{slice_subrange, slice_to_vec};
use warp_devices::xdma::Error as XdmaError;

verus! {

/// Bits of the control register.
#[derive(Copy, Clone, Debug, PartialEq, Eq, Structural)]
pub enum ControlRegBit {
    /// Read/write, cleared on handshake.
    Start,
    /// Read, cleared on read.
    Done,
    /// Read.
    Idle,
}

impl ControlRegBit {
    /// The bit's mask.
    pub open spec fn mask_spec(self) -> u32 {
        match self {
            ControlRegBit::Start => 0b0001,
            ControlRegBit::Done => 0b0010,
            ControlRegBit::Idle => 0b0100,
        }
    }

    /// The bit's mask.
    pub fn mask(self) -> (m: u32)
        ensures
            m == self.mask_spec(),
    {
        match self {
            ControlRegBit::Start => 0b0001,
            ControlRegBit::Done => 0b0010,
            ControlRegBit::Idle => 0b0100,
        }
    }
}

/// Registers of a core, by their offset in the core's shell window.
#[derive(Copy, Clone, Debug, PartialEq, Eq, Structural)]
pub enum PohCoreReg {
    Control,
    GlobalInterruptEnable,
    IpInterruptEnable,
    IpInterruptStatus,
    InHashesLow,
    InHashesHigh,
    NumItersLow,
    NumItersHigh,
    NumHashes,
    OutHashesLow,
    OutHashesHigh,
}

impl PohCoreReg {
    /// The register's offset.
    pub open spec fn offset_spec(self) -> u64 {
        match self {
            PohCoreReg::Control => 0,
            PohCoreReg::GlobalInterruptEnable => 0x04,
            PohCoreReg::IpInterruptEnable => 0x08,
            PohCoreReg::IpInterruptStatus => 0x0c,
            PohCoreReg::InHashesLow => 0x10,
            PohCoreReg::InHashesHigh => 0x14,
            PohCoreReg::NumItersLow => 0x1c,
            PohCoreReg::NumItersHigh => 0x20,
            PohCoreReg::NumHashes => 0x28,
            PohCoreReg::OutHashesLow => 0x30,
            PohCoreReg::OutHashesHigh => 0x34,
        }
    }

    /// The register's offset.
    pub fn offset(self) -> (o: u64)
        ensures
            o == self.offset_spec(),
    {
        match self {
            PohCoreReg::Control => 0,
            PohCoreReg::GlobalInterruptEnable => 0x04,
            PohCoreReg::IpInterruptEnable => 0x08,
            PohCoreReg::IpInterruptStatus => 0x0c,
            PohCoreReg::InHashesLow => 0x10,
            PohCoreReg::InHashesHigh => 0x14,
            PohCoreReg::NumItersLow => 0x1c,
            PohCoreReg::NumItersHigh => 0x20,
            PohCoreReg::NumHashes => 0x28,
            PohCoreReg::OutHashesLow => 0x30,
            PohCoreReg::OutHashesHigh => 0x34,
        }
    }
}

/// Errors of a core.
#[derive(Debug)]
pub enum Error {
    XdmaFailed(XdmaError),
}

impl From<XdmaError> for Error {
    fn from(e: XdmaError) -> (r: Self) {
        Error::XdmaFailed(e)
    }
}

impl vstd::std_specs::convert::FromSpecImpl<XdmaError> for Error {
    open spec fn obeys_from_spec() -> bool {
        true
    }

    open spec fn from_spec(e: XdmaError) -> Self {
        Error::XdmaFailed(e)
    }
}

/// Base addresses of memories and memory-mapped register interfaces of a PoH core.
#[derive(Copy, Clone, Debug, PartialEq, Eq, Structural)]
pub struct PohCoreBaseAddrs {
    pub shell_base: u64,
    pub hashes_base: u64,
    pub num_iters_base: u64,
}

/// One write of `bytes` to the register at `offset` of a core's shell window.
#[derive(Debug, PartialEq, Eq)]
pub struct ShellWrite {
    pub offset: u64,
    pub bytes: Vec<u8>,
}

/// The value of the control register whose little-endian bytes were read.
pub open spec fn control_reg_value(bytes: Seq<u8>) -> u32 {
    spec_u32_from_le_bytes(bytes)
}

/// Reads the control register from its four little-endian bytes.
pub fn control_reg_from_bytes(bytes: [u8; 4]) -> (reg: u32)
    ensures
        reg == control_reg_value(bytes@),
{
    u32_from_le_bytes(&bytes)
}

/// Whether `bit` is set in the control register value `reg`.
pub fn control_bit_set(reg: u32, bit: ControlRegBit) -> (set: bool)
    ensures
        set == (reg & bit.mask_spec() == bit.mask_spec()),
{
    reg & bit.mask() == bit.mask()
}

/// The bytes that start a core: the start bit, little-endian.
pub fn start_command() -> (cmd: Vec<u8>)
    ensures
        cmd@ == spec_u32_to_le_bytes(ControlRegBit::Start.mask_spec()),
{
    u32_to_le_bytes(ControlRegBit::Start.mask())
}

/// The low four bytes of a little-endian 64-bit value.
pub open spec fn low_word(x: u64) -> Seq<u8> {
    spec_u64_to_le_bytes(x).subrange(0, 4)
}

/// The high four bytes of a little-endian 64-bit value.
pub open spec fn high_word(x: u64) -> Seq<u8> {
    spec_u64_to_le_bytes(x).subrange(4, 8)
}

/// Law: the low word followed by the high word of a 64-bit value are its eight
/// little-endian bytes, four each, and they read back as the value.
pub proof fn lemma_words_rebuild(x: u64)
    ensures
        low_word(x).len() == 4,
        high_word(x).len() == 4,
        low_word(x) + high_word(x) == spec_u64_to_le_bytes(x),
        spec_u64_from_le_bytes(low_word(x) + high_word(x)) == x,
{
    vstd::bytes::lemma_auto_spec_u64_to_from_le_bytes();
    assert(low_word(x) + high_word(x) =~= spec_u64_to_le_bytes(x));
}

/// The register writes that set a core up for `num_hashes` hashes: input and
/// output hashes both at the hashes memory, iteration counts at their memory.
pub open spec fn init_plan(addrs: PohCoreBaseAddrs, num_hashes: u32) -> Seq<(u64, Seq<u8>)> {
    seq![
        (PohCoreReg::InHashesLow.offset_spec(), low_word(addrs.hashes_base)),
        (PohCoreReg::InHashesHigh.offset_spec(), high_word(addrs.hashes_base)),
        (PohCoreReg::NumItersLow.offset_spec(), low_word(addrs.num_iters_base)),
        (PohCoreReg::NumItersHigh.offset_spec(), high_word(addrs.num_iters_base)),
        (PohCoreReg::NumHashes.offset_spec(), spec_u32_to_le_bytes(num_hashes)),
        (PohCoreReg::OutHashesLow.offset_spec(), low_word(addrs.hashes_base)),
        (PohCoreReg::OutHashesHigh.offset_spec(), high_word(addrs.hashes_base)),
    ]
}

/// A shell write as an (offset, bytes) pair.
pub open spec fn shell_write_view(w: ShellWrite) -> (u64, Seq<u8>) {
    (w.offset, w.bytes@)
}

fn write_of(reg: PohCoreReg, bytes: &[u8]) -> (w: ShellWrite)
    ensures
        w.offset == reg.offset_spec(),
        w.bytes@ == bytes@,
{
    ShellWrite { offset: reg.offset(), bytes: slice_to_vec(bytes) }
}

impl PohCoreBaseAddrs {
    /// The absolute shell address of the register at `offset`.
    pub fn shell_addr(&self, offset: u64) -> (addr: u64)
        requires
            self.shell_base + offset <= u64::MAX,
        ensures
            addr == self.shell_base + offset,
    {
        self.shell_base + offset
    }

    /// The writes, in order, that set the core up once it is idle.
    ///
    /// The input and output hash addresses go to the register pairs
    /// `InHashesLow`/`InHashesHigh` and `OutHashesLow`/`OutHashesHigh`, the
    /// iteration-count address to `NumItersLow`/`NumItersHigh`, each pair
    /// holding the address's eight little-endian bytes, low four first; the
    /// hash count goes to `NumHashes` as four little-endian bytes.
    pub fn init_writes(&self, num_hashes: u32) -> (writes: Vec<ShellWrite>)
        ensures
            writes@.map_values(|w: ShellWrite| shell_write_view(w)) == init_plan(*self, num_hashes),
            writes@.len() == 7,
            writes@[0].offset == PohCoreReg::InHashesLow.offset_spec(),
            writes@[1].offset == PohCoreReg::InHashesHigh.offset_spec(),
            writes@[2].offset == PohCoreReg::NumItersLow.offset_spec(),
            writes@[3].offset == PohCoreReg::NumItersHigh.offset_spec(),
            writes@[4].offset == PohCoreReg::NumHashes.offset_spec(),
            writes@[5].offset == PohCoreReg::OutHashesLow.offset_spec(),
            writes@[6].offset == PohCoreReg::OutHashesHigh.offset_spec(),
            forall|i: int| 0 <= i < 7 ==> (#[trigger] writes@[i]).bytes@.len() == 4,
            writes@[0].bytes@ + writes@[1].bytes@ == spec_u64_to_le_bytes(self.hashes_base),
            spec_u64_from_le_bytes(writes@[0].bytes@ + writes@[1].bytes@) == self.hashes_base,
            writes@[2].bytes@ + writes@[3].bytes@ == spec_u64_to_le_bytes(self.num_iters_base),
            spec_u64_from_le_bytes(writes@[2].bytes@ + writes@[3].bytes@) == self.num_iters_base,
            writes@[4].bytes@ == spec_u32_to_le_bytes(num_hashes),
            spec_u32_from_le_bytes(writes@[4].bytes@) == num_hashes,
            writes@[5].bytes@ + writes@[6].bytes@ == spec_u64_to_le_bytes(self.hashes_base),
            spec_u64_from_le_bytes(writes@[5].bytes@ + writes@[6].bytes@) == self.hashes_base,
    {
        proof {
            lemma_words_rebuild(self.hashes_base);
            lemma_words_rebuild(self.num_iters_base);
            vstd::bytes::lemma_auto_spec_u32_to_from_le_bytes();
        }
        let in_hashes = u64_to_le_bytes(self.hashes_base);
        let num_iters = u64_to_le_bytes(self.num_iters_base);
        let count = u32_to_le_bytes(num_hashes);
        let mut writes: Vec<ShellWrite> = Vec::new();
        writes.push(write_of(PohCoreReg::InHashesLow, slice_subrange(in_hashes.as_slice(), 0, 4)));
        writes.push(write_of(PohCoreReg::InHashesHigh, slice_subrange(in_hashes.as_slice(), 4, 8)));
        writes.push(write_of(PohCoreReg::NumItersLow, slice_subrange(num_iters.as_slice(), 0, 4)));
        writes.push(write_of(PohCoreReg::NumItersHigh, slice_subrange(num_iters.as_slice(), 4, 8)));
        writes.push(write_of(PohCoreReg::NumHashes, count.as_slice()));
        writes.push(write_of(PohCoreReg::OutHashesLow, slice_subrange(in_hashes.as_slice(), 0, 4)));
        writes.push(write_of(PohCoreReg::OutHashesHigh, slice_subrange(in_hashes.as_slice(), 4, 8)));
        assert(writes@.map_values(|w: ShellWrite| shell_write_view(w)) =~= init_plan(*self, num_hashes));
        assert forall|i: int| 0 <= i < 7 implies (#[trigger] writes@[i]).bytes@ == init_plan(
            *self,
            num_hashes,
        )[i].1 && writes@[i].offset == init_plan(*self, num_hashes)[i].0 by {
            assert(writes@.map_values(|w: ShellWrite| shell_write_view(w))[i] == shell_write_view(writes@[i]));
        }
        writes
    }
}

} // verus!

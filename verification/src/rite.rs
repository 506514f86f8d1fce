//! Data model of the binary image: header, sections, and the IREP bytecode
//! unit with its literal pool and symbol table.  These are passive records;
//! the encoder in `binary` turns them into the wire format.

use vstd::prelude::*;

verus! {

/// The four identifier bytes opening the whole image.
pub open spec fn ident_bytes() -> Seq<u8> {
    seq![82u8, 73u8, 84u8, 69u8]  // the ASCII bytes of "RITE"
}

/// Four-byte identifier opening the whole image.
pub fn ident() -> (r: [u8; 4])
    ensures
        r@ == ident_bytes(),
{
    let r = [82u8, 73u8, 84u8, 69u8];  // "RITE"
    proof {
        assert(r@ =~= ident_bytes());
    }
    r
}

/// The four identifier bytes of a bytecode-carrying section.
pub open spec fn irep_ident_bytes() -> Seq<u8> {
    seq![73u8, 82u8, 69u8, 80u8]  // the ASCII bytes of "IREP"
}

/// Four-byte identifier of a bytecode-carrying section.
pub fn irep_ident() -> (r: [u8; 4])
    ensures
        r@ == irep_ident_bytes(),
{
    let r = [73u8, 82u8, 69u8, 80u8];  // "IREP"
    proof {
        assert(r@ =~= irep_ident_bytes());
    }
    r
}

/// The four identifier bytes of the terminating section.
pub open spec fn end_ident_bytes() -> Seq<u8> {
    seq![69u8, 78u8, 68u8, 0u8]  // the ASCII bytes of "END" and a NUL
}

/// Four-byte identifier of the terminating section.
pub fn end_ident() -> (r: [u8; 4])
    ensures
        r@ == end_ident_bytes(),
{
    let r = [69u8, 78u8, 68u8, 0u8];  // "END" and a NUL
    proof {
        assert(r@ =~= end_ident_bytes());
    }
    r
}

/// Fixed-layout image header.  `size` is a placeholder: the encoder always
/// writes the true total length over it after the body is laid down.
#[derive(Debug)]
pub struct BinaryHeader {
    pub ident: [u8; 4],
    pub major_version: [u8; 2],
    pub minor_version: [u8; 2],
    pub size: i32,
    pub compiler_name: [u8; 4],
    pub compiler_version: [u8; 4],
}

/// A self-describing chunk of the image: a header plus, for IREP sections,
/// the bytecode unit it carries.
#[derive(Debug)]
pub struct Section {
    pub header: SectionHeader,
    pub body_irep: Option<Box<Irep>>,
}

/// Kind identifier, declared size, and for IREP sections a version tag.
#[derive(Debug)]
pub struct SectionHeader {
    pub ident: [u8; 4],
    pub size: i32,
    pub rite_version: Option<[u8; 4]>,
}

/// One compiled procedure: register counts, raw instruction bytes, literal
/// pool, symbol table, and nested child units.  `size` is declared by the
/// caller and trusted by the encoder; `ilen` likewise declares the length of
/// `iseq_bin`.
#[derive(Debug)]
pub struct Irep {
    pub size: i32,
    pub nlocals: u16,
    pub nregs: u16,
    /* number of child irep, historically called rlen */
    pub rlen: u16,
    /* number of catch handler */
    pub clen: u16,
    pub ilen: u32,
    pub iseq_bin: Vec<u8>,
    pub pool: Vec<PoolItem>,
    pub syms: Vec<Sym>,
    pub children: Vec<Irep>,
}

/// A literal-pool entry.  Only `Str` has a wire encoding; the encoder rejects
/// every other variant.  `Float` carries the IEEE 754 bit pattern of its
/// value, since nothing here computes with it.
#[derive(Debug, Clone)]
pub enum PoolItem {
    Str(Vec<u8>),
    Int32(i32),
    SStr(&'static str),
    Int64(i64),
    Float(u64),
    BigInt(),
}

/// A symbol-table entry: the raw bytes of a name.
#[derive(Debug, Clone)]
pub struct Sym {
    pub name: Vec<u8>,
}

/// Why encoding a binary image failed.
#[derive(Debug, PartialEq, Eq, Structural, Clone, Copy)]
pub enum EncodeError {
    /// An IREP section without its required bytecode payload.
    MissingIrepBody,
    /// A literal-pool entry of a variant with no wire encoding.
    UnsupportedPoolItem,
    /// A nested child unit, which the wire writer does not serialize yet.
    ChildrenUnsupported,
    /// A section whose kind identifier is neither IREP nor END.
    UnknownSectionKind,
    /// A finished image longer than the signed 32-bit size field can state.
    ImageTooLarge,
}

/// Big-endian bytes of a 16-bit value.
pub open spec fn be16(v: u16) -> Seq<u8> {
    seq![((v >> 8) & 0xff) as u8, (v & 0xff) as u8]
}

/// Big-endian bytes of a 32-bit value.
pub open spec fn be32(v: u32) -> Seq<u8> {
    seq![
        ((v >> 24) & 0xff) as u8,
        ((v >> 16) & 0xff) as u8,
        ((v >> 8) & 0xff) as u8,
        (v & 0xff) as u8,
    ]
}

/// Big-endian bytes of a signed 32-bit value: its two's-complement image.
pub open spec fn be_i32(v: i32) -> Seq<u8> {
    be32(v as u32)
}

/// The big-endian 32-bit integer held by four bytes of `s`, as a number.
pub open spec fn read_be32(s: Seq<u8>, at: int) -> int {
    0x1000000 * (s[at] as int) + 0x10000 * (s[at + 1] as int) + 0x100 * (s[at + 2] as int) + (
    s[at + 3] as int)
}

/// Reading back the four big-endian bytes of a value gives the value.
pub proof fn lemma_be32_readback(v: u32)
    ensures
        read_be32(be32(v), 0) == v as int,
{
    assert((v >> 24) & 0xff < 0x100) by (bit_vector);
    assert((v >> 16) & 0xff < 0x100) by (bit_vector);
    assert((v >> 8) & 0xff < 0x100) by (bit_vector);
    assert(v & 0xff < 0x100) by (bit_vector);
    assert((((v >> 24) & 0xff) as u64) * 0x1000000 + (((v >> 16) & 0xff) as u64) * 0x10000 + (((v
        >> 8) & 0xff) as u64) * 0x100 + ((v & 0xff) as u64) == v as u64) by (bit_vector);
}

/// Wire bytes of one literal-pool entry.  Only `Str` has an encoding: a zero
/// type tag, a big-endian 16-bit length, the bytes, and a NUL terminator.
pub open spec fn pool_item_bytes(p: PoolItem) -> Seq<u8> {
    match p {
        PoolItem::Str(s) => seq![0u8] + be16(s@.len() as u16) + s@ + seq![0u8],
        _ => Seq::empty(),
    }
}

/// Wire bytes of a literal pool's entries, in order.
pub open spec fn cat_pool_items(items: Seq<PoolItem>) -> Seq<u8>
    decreases items.len(),
{
    if items.len() == 0 {
        Seq::empty()
    } else {
        cat_pool_items(items.drop_last()) + pool_item_bytes(items.last())
    }
}

/// Wire bytes of one symbol: big-endian 16-bit length, the name's bytes, and
/// a NUL terminator.
pub open spec fn sym_bytes(s: Sym) -> Seq<u8> {
    be16(s.name@.len() as u16) + s.name@ + seq![0u8]
}

/// Wire bytes of a symbol table's entries, in order.
pub open spec fn cat_syms(ss: Seq<Sym>) -> Seq<u8>
    decreases ss.len(),
{
    if ss.len() == 0 {
        Seq::empty()
    } else {
        cat_syms(ss.drop_last()) + sym_bytes(ss.last())
    }
}

/// Wire bytes of an IREP body: the declared size, the four counters, the
/// instruction length and bytes, then the counted literal pool and counted
/// symbol table.
pub open spec fn irep_body_bytes(i: Irep) -> Seq<u8> {
    be_i32(i.size) + be16(i.nlocals) + be16(i.nregs) + be16(i.rlen) + be16(i.clen) + be32(i.ilen)
        + i.iseq_bin@ + be16(i.pool@.len() as u16) + cat_pool_items(i.pool@) + be16(
        i.syms@.len() as u16,
    ) + cat_syms(i.syms@)
}

/// Wire bytes of a whole section.  An IREP section frames its body with the
/// identifier, a size of `12 + declared_size`, and the version tag; an END
/// (or any non-IREP) section is its identifier and declared size alone.
pub open spec fn section_bytes(s: Section) -> Seq<u8> {
    if s.header.ident@ == irep_ident_bytes() {
        s.header.ident@ + be_i32((12 + (s.body_irep->0).size as int) as i32) + (
        s.header.rite_version->0)@ + irep_body_bytes(*s.body_irep->0)
    } else {
        s.header.ident@ + be_i32(s.header.size)
    }
}

/// What, if anything, stops a section from being encoded, checked in the
/// order the writer meets it: a missing IREP body, then an unencodable pool
/// entry, then unserialized children; a non-IREP, non-END kind is unknown.
pub open spec fn section_error(s: Section) -> Option<EncodeError> {
    if s.header.ident@ == irep_ident_bytes() {
        match s.body_irep {
            Option::None => Some(EncodeError::MissingIrepBody),
            Option::Some(b) => {
                if exists|k: int| 0 <= k < b.pool@.len() && !(b.pool@[k] is Str) {
                    Some(EncodeError::UnsupportedPoolItem)
                } else if b.children@.len() > 0 {
                    Some(EncodeError::ChildrenUnsupported)
                } else {
                    Option::None
                }
            },
        }
    } else if s.header.ident@ == end_ident_bytes() {
        Option::None
    } else {
        Some(EncodeError::UnknownSectionKind)
    }
}

/// The first error among the sections, in order, if any.
pub open spec fn sections_error(ss: Seq<Section>) -> Option<EncodeError>
    decreases ss.len(),
{
    if ss.len() == 0 {
        Option::None
    } else if section_error(ss[0]) is Some {
        section_error(ss[0])
    } else {
        sections_error(ss.skip(1))
    }
}

/// The first error is found past any prefix of error-free sections.
pub proof fn lemma_sections_error_skip(ss: Seq<Section>, i: int)
    requires
        0 <= i <= ss.len(),
        forall|k: int| 0 <= k < i ==> section_error(ss[k]) is None,
    ensures
        sections_error(ss) == sections_error(ss.skip(i)),
    decreases i,
{
    if i == 0 {
        assert(ss.skip(0) =~= ss);
    } else {
        lemma_sections_error_skip(ss, i - 1);
        assert(ss.skip(i - 1).skip(1) =~= ss.skip(i));
        assert(ss.skip(i - 1)[0] == ss[i - 1]);
    }
}

/// Wire bytes of the sections, in order.
pub open spec fn cat_sections(ss: Seq<Section>) -> Seq<u8>
    decreases ss.len(),
{
    if ss.len() == 0 {
        Seq::empty()
    } else {
        cat_sections(ss.drop_last()) + section_bytes(ss.last())
    }
}

/// The field-width limits the wire format forces on one IREP body: counts
/// and lengths must fit their 16-bit fields, and the framed size must leave
/// room for the 12 framing bytes in a signed 32-bit field.
pub open spec fn irep_fits(i: Irep) -> bool {
    &&& i.size <= i32::MAX - 12
    &&& i.pool@.len() <= u16::MAX
    &&& i.syms@.len() <= u16::MAX
    &&& forall|k: int|
        0 <= k < i.pool@.len() ==> (#[trigger] i.pool@[k] matches PoolItem::Str(s) ==> s@.len()
            <= u16::MAX)
    &&& forall|k: int| 0 <= k < i.syms@.len() ==> (#[trigger] i.syms@[k]).name@.len() <= u16::MAX
}

/// What the wire format demands of a section before it can be written at
/// all: an IREP section carries its version tag, and its body, if present,
/// fits the field widths.
pub open spec fn section_fits(s: Section) -> bool {
    s.header.ident@ == irep_ident_bytes() ==> {
        &&& s.header.rite_version is Some
        &&& (s.body_irep matches Some(b) ==> irep_fits(*b))
    }
}

} // verus!

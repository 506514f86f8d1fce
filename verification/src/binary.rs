//! The binary image and its encoder.
//!
//! `Binary::encode` streams the header and sections into a byte buffer and
//! then backpatches the header's total-size field.  Its contract pins the
//! output down exactly: on success the bytes equal [`image_bytes`], and the
//! four bytes at the size-field offset read back as the total length.

use vstd::prelude::*;

use crate::bufmut::{
    buf_len, buf_new, buf_put_i32, buf_put_slice, buf_put_u16, buf_put_u32, buf_put_u8, buf_set,
    buf_to_vec, bytes_of,
};
use crate::rite;

verus! {

/// A whole binary image: header plus ordered sections.
#[derive(Debug)]
pub struct Binary {
    pub binary_header: rite::BinaryHeader,
    pub sections: Vec<rite::Section>,
}

impl Binary {
    /// A fresh image: placeholder header, one empty IREP section, one END
    /// section.  The IREP body is still to be filled in by the caller.
    pub fn new() -> (b: Binary)
        ensures
            b.binary_header.ident@ == rite::ident_bytes(),
            b.binary_header.major_version@ == seq![48u8, 51u8],
            b.binary_header.minor_version@ == seq![48u8, 48u8],
            b.binary_header.size == -1,
            b.binary_header.compiler_name@ == crate::compiler_name_bytes(),
            b.binary_header.compiler_version@ == seq![48u8, 48u8, 48u8, 48u8],
            b.sections@.len() == 2,
            b.sections@[0].header.ident@ == rite::irep_ident_bytes(),
            b.sections@[0].header.size == -1,
            b.sections@[0].header.rite_version matches Some(v) && v@ == seq![48u8, 51u8, 48u8, 48u8],
            b.sections@[0].body_irep is None,
            b.sections@[1].header.ident@ == rite::end_ident_bytes(),
            b.sections@[1].header.size == 8,
            b.sections@[1].header.rite_version is None,
            b.sections@[1].body_irep is None,
    {
        let major_version = [48u8, 51u8];  // "03"
        let minor_version = [48u8, 48u8];  // "00"
        let compiler_version = [48u8, 48u8, 48u8, 48u8];  // "0000"
        let rite_version = [48u8, 51u8, 48u8, 48u8];  // "0300"
        proof {
            assert(major_version@ =~= seq![48u8, 51u8]);
            assert(minor_version@ =~= seq![48u8, 48u8]);
            assert(compiler_version@ =~= seq![48u8, 48u8, 48u8, 48u8]);
            assert(rite_version@ =~= seq![48u8, 51u8, 48u8, 48u8]);
        }
        let binary_header = rite::BinaryHeader {
            ident: rite::ident(),
            major_version,
            minor_version,
            size: -1,  // marker, overwritten by the encoder
            compiler_name: crate::compiler_name(),
            compiler_version,
        };
        let irep_section = rite::Section {
            header: rite::SectionHeader {
                ident: rite::irep_ident(),
                size: -1,
                rite_version: Some(rite_version),
            },
            body_irep: None,
        };
        let end_section = rite::Section {
            header: rite::SectionHeader {
                ident: rite::end_ident(),
                size: 8,
                rite_version: None,
            },
            body_irep: None,
        };
        let mut sections: Vec<rite::Section> = Vec::new();
        sections.push(irep_section);
        sections.push(end_section);
        Binary { binary_header, sections }
    }
}

/// Wire bytes of the header as first written: the placeholder size of -1
/// stands where the total length will later be patched in.
pub open spec fn header_bytes(h: rite::BinaryHeader) -> Seq<u8> {
    h.ident@ + h.major_version@ + h.minor_version@ + rite::be_i32(-1i32) + h.compiler_name@
        + h.compiler_version@
}

/// The whole image before the size field is patched.
pub open spec fn unpatched_bytes(b: Binary) -> Seq<u8> {
    header_bytes(b.binary_header) + rite::cat_sections(b.sections@)
}

/// Total byte length of the serialized image.
pub open spec fn image_len(b: Binary) -> int {
    unpatched_bytes(b).len() as int
}

/// `s` with four bytes overwritten at `at`.
pub open spec fn patch4(s: Seq<u8>, at: int, v: Seq<u8>) -> Seq<u8> {
    s.update(at, v[0]).update(at + 1, v[1]).update(at + 2, v[2]).update(at + 3, v[3])
}

/// The exact finished image: header and sections, with the true total
/// length written big-endian over the placeholder size field at offset 8.
pub open spec fn image_bytes(b: Binary) -> Seq<u8> {
    patch4(unpatched_bytes(b), 8, rite::be32(image_len(b) as u32))
}

/// The wire format's field-width demands, over every section of the image.
pub open spec fn image_wf(b: Binary) -> bool {
    forall|j: int| 0 <= j < b.sections@.len() ==> rite::section_fits(#[trigger] b.sections@[j])
}

fn eq4(a: &[u8; 4], b: &[u8; 4]) -> (r: bool)
    ensures
        r == (a@ == b@),
{
    let r = a[0] == b[0] && a[1] == b[1] && a[2] == b[2] && a[3] == b[3];
    proof {
        if r {
            assert(a@ =~= b@);
        }
    }
    r
}

/// Decide [`rite::irep_fits`] at run time.
fn irep_fits_check(ir: &rite::Irep) -> (r: bool)
    ensures
        r == rite::irep_fits(*ir),
{
    if !(ir.size <= i32::MAX - 12) {
        return false;
    }
    if !(ir.pool.len() <= 0xffff) {
        return false;
    }
    if !(ir.syms.len() <= 0xffff) {
        return false;
    }
    let mut j: usize = 0;
    while j < ir.pool.len()
        invariant
            j <= ir.pool@.len(),
            forall|k: int|
                0 <= k < j ==> (#[trigger] ir.pool@[k] matches rite::PoolItem::Str(s) ==> s@.len()
                    <= u16::MAX),
        decreases ir.pool@.len() - j,
    {
        match &ir.pool[j] {
            rite::PoolItem::Str(s) => {
                if !(s.len() <= 0xffff) {
                    return false;
                }
            },
            _ => {},
        }
        j = j + 1;
    }
    let mut j: usize = 0;
    while j < ir.syms.len()
        invariant
            j <= ir.syms@.len(),
            forall|k: int| 0 <= k < j ==> (#[trigger] ir.syms@[k]).name@.len() <= u16::MAX,
        decreases ir.syms@.len() - j,
    {
        if !(ir.syms[j].name.len() <= 0xffff) {
            return false;
        }
        j = j + 1;
    }
    true
}

/// Decide [`rite::section_fits`] at run time.
fn section_fits_check(s: &rite::Section) -> (r: bool)
    ensures
        r == rite::section_fits(*s),
{
    let irep_id = rite::irep_ident();
    if !eq4(&s.header.ident, &irep_id) {
        return true;
    }
    if s.header.rite_version.is_none() {
        return false;
    }
    match &s.body_irep {
        Option::None => true,
        Option::Some(bx) => irep_fits_check(&**bx),
    }
}

/// Write the counted literal pool, or report the first entry that has no
/// wire encoding.
fn write_pool(buf: &mut bytes::BytesMut, pool: &Vec<rite::PoolItem>) -> (r: Result<
    (),
    rite::EncodeError,
>)
    requires
        pool@.len() <= u16::MAX,
        forall|k: int|
            0 <= k < pool@.len() ==> (#[trigger] pool@[k] matches rite::PoolItem::Str(s)
                ==> s@.len() <= u16::MAX),
    ensures
        match r {
            Ok(_) => ({
                &&& forall|k: int| 0 <= k < pool@.len() ==> #[trigger] pool@[k] is Str
                &&& bytes_of(*final(buf)) == bytes_of(*old(buf)) + rite::be16(pool@.len() as u16)
                    + rite::cat_pool_items(pool@)
            }),
            Err(e) => ({
                &&& exists|k: int| 0 <= k < pool@.len() && !(#[trigger] pool@[k] is Str)
                &&& e == rite::EncodeError::UnsupportedPoolItem
            }),
        },
{
    let ghost base = bytes_of(*buf);
    buf_put_u16(buf, pool.len() as u16);
    let mut j: usize = 0;
    while j < pool.len()
        invariant
            j <= pool@.len(),
            pool@.len() <= u16::MAX,
            forall|k: int|
                0 <= k < pool@.len() ==> (#[trigger] pool@[k] matches rite::PoolItem::Str(s)
                    ==> s@.len() <= u16::MAX),
            forall|k: int| 0 <= k < j ==> #[trigger] pool@[k] is Str,
            bytes_of(*buf) == base + rite::be16(pool@.len() as u16) + rite::cat_pool_items(
                pool@.take(j as int),
            ),
        decreases pool@.len() - j,
    {
        let ghost pre = bytes_of(*buf);
        match &pool[j] {
            rite::PoolItem::Str(s) => {
                buf_put_u8(buf, 0);
                buf_put_u16(buf, s.len() as u16);
                buf_put_slice(buf, s.as_slice());
                buf_put_u8(buf, 0);
                proof {
                    assert(bytes_of(*buf) =~= pre + rite::pool_item_bytes(pool@[j as int]));
                    assert(pool@.take(j as int + 1).drop_last() =~= pool@.take(j as int));
                    assert(pool@.take(j as int + 1).last() == pool@[j as int]);
                    assert(bytes_of(*buf) =~= base + rite::be16(pool@.len() as u16)
                        + rite::cat_pool_items(pool@.take(j as int + 1)));
                }
            },
            _ => {
                proof {
                    assert(0 <= j < pool@.len() && !(pool@[j as int] is Str));
                }
                return Err(rite::EncodeError::UnsupportedPoolItem);
            },
        }
        j = j + 1;
    }
    proof {
        assert(pool@.take(pool@.len() as int) =~= pool@);
    }
    Ok(())
}

/// Write the counted symbol table.
fn write_syms(buf: &mut bytes::BytesMut, syms: &Vec<rite::Sym>)
    requires
        syms@.len() <= u16::MAX,
        forall|k: int| 0 <= k < syms@.len() ==> (#[trigger] syms@[k]).name@.len() <= u16::MAX,
    ensures
        bytes_of(*final(buf)) == bytes_of(*old(buf)) + rite::be16(syms@.len() as u16)
            + rite::cat_syms(syms@),
{
    let ghost base = bytes_of(*buf);
    buf_put_u16(buf, syms.len() as u16);
    let mut j: usize = 0;
    while j < syms.len()
        invariant
            j <= syms@.len(),
            syms@.len() <= u16::MAX,
            forall|k: int| 0 <= k < syms@.len() ==> (#[trigger] syms@[k]).name@.len() <= u16::MAX,
            bytes_of(*buf) == base + rite::be16(syms@.len() as u16) + rite::cat_syms(
                syms@.take(j as int),
            ),
        decreases syms@.len() - j,
    {
        let ghost pre = bytes_of(*buf);
        let s = &syms[j];
        buf_put_u16(buf, s.name.len() as u16);
        buf_put_slice(buf, s.name.as_slice());
        buf_put_u8(buf, 0);
        proof {
            assert(bytes_of(*buf) =~= pre + rite::sym_bytes(syms@[j as int]));
            assert(syms@.take(j as int + 1).drop_last() =~= syms@.take(j as int));
            assert(syms@.take(j as int + 1).last() == syms@[j as int]);
            assert(bytes_of(*buf) =~= base + rite::be16(syms@.len() as u16) + rite::cat_syms(
                syms@.take(j as int + 1),
            ));
        }
        j = j + 1;
    }
    proof {
        assert(syms@.take(syms@.len() as int) =~= syms@);
    }
}

/// Write an IREP body in its fixed field order, or report why it cannot be
/// written: an unencodable pool entry first, then unserialized children.
fn write_irep_body(buf: &mut bytes::BytesMut, ir: &rite::Irep) -> (r: Result<
    (),
    rite::EncodeError,
>)
    requires
        rite::irep_fits(*ir),
    ensures
        match r {
            Ok(_) => ({
                &&& forall|k: int| 0 <= k < ir.pool@.len() ==> #[trigger] ir.pool@[k] is Str
                &&& ir.children@.len() == 0
                &&& bytes_of(*final(buf)) == bytes_of(*old(buf)) + rite::irep_body_bytes(*ir)
            }),
            Err(e) => ({
                if exists|k: int| 0 <= k < ir.pool@.len() && !(#[trigger] ir.pool@[k] is Str) {
                    e == rite::EncodeError::UnsupportedPoolItem
                } else {
                    ir.children@.len() > 0 && e == rite::EncodeError::ChildrenUnsupported
                }
            }),
        },
{
    let ghost base = bytes_of(*buf);
    buf_put_i32(buf, ir.size);
    buf_put_u16(buf, ir.nlocals);
    buf_put_u16(buf, ir.nregs);
    buf_put_u16(buf, ir.rlen);
    buf_put_u16(buf, ir.clen);
    buf_put_u32(buf, ir.ilen);
    buf_put_slice(buf, ir.iseq_bin.as_slice());
    let rp = write_pool(buf, &ir.pool);
    match rp {
        Err(e) => {
            return Err(e);
        },
        Ok(_) => {},
    }
    write_syms(buf, &ir.syms);
    if ir.children.len() > 0 {
        return Err(rite::EncodeError::ChildrenUnsupported);
    }
    proof {
        assert(bytes_of(*buf) =~= base + rite::irep_body_bytes(*ir));
    }
    Ok(())
}

/// An error found at section `i`, after `i` clean sections, is the image's
/// first error.
proof fn lemma_error_at(ss: Seq<rite::Section>, i: int, e: rite::EncodeError)
    requires
        0 <= i < ss.len(),
        forall|k: int| 0 <= k < i ==> rite::section_error(#[trigger] ss[k]) is None,
        rite::section_error(ss[i]) == Some(e),
    ensures
        rite::sections_error(ss) == Some(e),
{
    rite::lemma_sections_error_skip(ss, i);
    assert(ss.skip(i)[0] == ss[i]);
    assert(ss.skip(i).len() > 0);
}

impl Binary {
    /// Whether every section meets the wire format's field-width demands,
    /// [`image_wf`] — what [`Binary::encode`] requires of its input.
    pub fn well_sized(&self) -> (r: bool)
        ensures
            r == image_wf(*self),
    {
        let mut idx: usize = 0;
        while idx < self.sections.len()
            invariant
                idx <= self.sections@.len(),
                forall|k: int| 0 <= k < idx ==> rite::section_fits(#[trigger] self.sections@[k]),
            decreases self.sections@.len() - idx,
        {
            if !section_fits_check(&self.sections[idx]) {
                return false;
            }
            idx = idx + 1;
        }
        true
    }

    /// Serialize the image into its exact wire bytes.  On success the result
    /// equals [`image_bytes`]: header, sections in order, and the total
    /// length backpatched big-endian into the size field, where it reads
    /// back as the length of the returned bytes.  Otherwise the error is the
    /// first failing section's, or `ImageTooLarge` for an image whose
    /// length overflows the signed 32-bit size field.
    pub fn encode(&self) -> (r: Result<Vec<u8>, rite::EncodeError>)
        requires
            image_wf(*self),
        ensures
            match r {
                Ok(v) => ({
                    &&& rite::sections_error(self.sections@) is None
                    &&& image_len(*self) <= i32::MAX
                    &&& v@ == image_bytes(*self)
                    &&& v@.len() == image_len(*self)
                    &&& rite::read_be32(v@, 8) == v@.len()
                }),
                Err(e) => ({
                    ||| (rite::sections_error(self.sections@) matches Some(e0) && e == e0)
                    ||| (rite::sections_error(self.sections@) is None && e
                        == rite::EncodeError::ImageTooLarge && image_len(*self) > i32::MAX)
                }),
            },
    {
        let b = &self.binary_header;
        let mut buf = buf_new();
        buf_put_slice(&mut buf, b.ident.as_slice());
        buf_put_slice(&mut buf, b.major_version.as_slice());
        buf_put_slice(&mut buf, b.minor_version.as_slice());
        buf_put_i32(&mut buf, -1);
        buf_put_slice(&mut buf, b.compiler_name.as_slice());
        buf_put_slice(&mut buf, b.compiler_version.as_slice());
        proof {
            assert(bytes_of(buf) =~= header_bytes(self.binary_header));
            assert(self.sections@.take(0) =~= Seq::<rite::Section>::empty());
            assert(bytes_of(buf) =~= header_bytes(self.binary_header) + rite::cat_sections(
                self.sections@.take(0),
            ));
        }
        let irep_id = rite::irep_ident();
        let end_id = rite::end_ident();
        let mut idx: usize = 0;
        while idx < self.sections.len()
            invariant
                image_wf(*self),
                irep_id@ == rite::irep_ident_bytes(),
                end_id@ == rite::end_ident_bytes(),
                idx <= self.sections@.len(),
                forall|k: int|
                    0 <= k < idx ==> rite::section_error(#[trigger] self.sections@[k]) is None,
                bytes_of(buf) == header_bytes(self.binary_header) + rite::cat_sections(
                    self.sections@.take(idx as int),
                ),
            decreases self.sections@.len() - idx,
        {
            let section = &self.sections[idx];
            let ghost pre = bytes_of(buf);
            proof {
                assert(rite::section_fits(self.sections@[idx as int]));
            }
            if eq4(&section.header.ident, &irep_id) {
                match &section.body_irep {
                    Option::None => {
                        proof {
                            lemma_error_at(
                                self.sections@,
                                idx as int,
                                rite::EncodeError::MissingIrepBody,
                            );
                        }
                        return Err(rite::EncodeError::MissingIrepBody);
                    },
                    Option::Some(bx) => {
                        buf_put_slice(&mut buf, section.header.ident.as_slice());
                        let sz: i32 = 12 + bx.size;
                        buf_put_i32(&mut buf, sz);
                        let v: [u8; 4] = section.header.rite_version.unwrap();
                        buf_put_slice(&mut buf, v.as_slice());
                        let rr = write_irep_body(&mut buf, &**bx);
                        match rr {
                            Err(e) => {
                                proof {
                                    lemma_error_at(self.sections@, idx as int, e);
                                }
                                return Err(e);
                            },
                            Ok(_) => {
                                proof {
                                    assert(rite::section_error(self.sections@[idx as int]) is None);
                                    assert(bytes_of(buf) =~= pre + rite::section_bytes(
                                        self.sections@[idx as int],
                                    ));
                                }
                            },
                        }
                    },
                }
            } else if eq4(&section.header.ident, &end_id) {
                buf_put_slice(&mut buf, section.header.ident.as_slice());
                buf_put_i32(&mut buf, section.header.size);
                proof {
                    assert(rite::section_error(self.sections@[idx as int]) is None);
                    assert(bytes_of(buf) =~= pre + rite::section_bytes(
                        self.sections@[idx as int],
                    ));
                }
            } else {
                proof {
                    lemma_error_at(
                        self.sections@,
                        idx as int,
                        rite::EncodeError::UnknownSectionKind,
                    );
                }
                return Err(rite::EncodeError::UnknownSectionKind);
            }
            proof {
                assert(self.sections@.take(idx as int + 1).drop_last() =~= self.sections@.take(
                    idx as int,
                ));
                assert(self.sections@.take(idx as int + 1).last() == self.sections@[idx as int]);
                assert(bytes_of(buf) =~= header_bytes(self.binary_header) + rite::cat_sections(
                    self.sections@.take(idx as int + 1),
                ));
            }
            idx = idx + 1;
        }
        proof {
            assert(self.sections@.take(self.sections@.len() as int) =~= self.sections@);
            rite::lemma_sections_error_skip(self.sections@, self.sections@.len() as int);
            assert(self.sections@.skip(self.sections@.len() as int)
                =~= Seq::<rite::Section>::empty());
            assert(bytes_of(buf) == unpatched_bytes(*self));
        }
        let n: usize = buf_len(&buf);
        if n > 0x7fff_ffff {
            return Err(rite::EncodeError::ImageTooLarge);
        }
        let n32: u32 = n as u32;
        proof {
            assert((n32 >> 24) & 0xff < 0x100) by (bit_vector);
            assert((n32 >> 16) & 0xff < 0x100) by (bit_vector);
            assert((n32 >> 8) & 0xff < 0x100) by (bit_vector);
            assert(n32 & 0xff < 0x100) by (bit_vector);
            assert(header_bytes(self.binary_header).len() == 20);
        }
        let b0: u8 = ((n32 >> 24) & 0xff) as u8;
        let b1: u8 = ((n32 >> 16) & 0xff) as u8;
        let b2: u8 = ((n32 >> 8) & 0xff) as u8;
        let b3: u8 = (n32 & 0xff) as u8;
        buf_set(&mut buf, 8, b0);
        buf_set(&mut buf, 9, b1);
        buf_set(&mut buf, 10, b2);
        buf_set(&mut buf, 11, b3);
        let out = buf_to_vec(&buf);
        proof {
            assert(image_len(*self) as u32 == n32);
            assert(bytes_of(buf) =~= patch4(unpatched_bytes(*self), 8, rite::be32(n32)));
            rite::lemma_be32_readback(n32);
            assert(out@[8] == rite::be32(n32)[0]);
            assert(out@[9] == rite::be32(n32)[1]);
            assert(out@[10] == rite::be32(n32)[2]);
            assert(out@[11] == rite::be32(n32)[3]);
            assert(rite::read_be32(out@, 8) == rite::read_be32(rite::be32(n32), 0));
        }
        Ok(out)
    }
}

} // verus!

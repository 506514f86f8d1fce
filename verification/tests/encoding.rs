use mrbasm::binary::Binary;
use mrbasm::rite::{EncodeError, Irep, PoolItem, Sym};

/// The worked example: one IREP holding a send of "Hello" to `puts`.
fn sample_irep() -> Irep {
    let iseq_bin: Vec<u8> = vec![81, 2, 0, 45, 1, 0, 1, 56, 1, 105];
    Irep {
        size: 4 + 2 + 2 + 2 + 2 + 4 + 10 + 2 + (1 + 2 + 5 + 1) + 2 + (2 + 4 + 1),
        nlocals: 1,
        nregs: 4,
        rlen: 0,
        clen: 0,
        ilen: iseq_bin.len() as u32,
        iseq_bin,
        pool: vec![PoolItem::Str(b"Hello".to_vec())],
        syms: vec![Sym { name: b"puts".to_vec() }],
        children: vec![],
    }
}

fn sample_binary() -> Binary {
    let mut bin = Binary::new();
    bin.sections[0].body_irep = Some(Box::new(sample_irep()));
    bin
}

fn read_be32(bytes: &[u8], at: usize) -> u32 {
    ((bytes[at] as u32) << 24)
        | ((bytes[at + 1] as u32) << 16)
        | ((bytes[at + 2] as u32) << 8)
        | (bytes[at + 3] as u32)
}

#[test]
fn sample_image_layout() {
    let bin = sample_binary();
    assert!(bin.well_sized());
    let bytes = bin.encode().expect("encoding the sample image succeeds");
    // header: ident, major, minor, size, compiler name, compiler version
    assert_eq!(&bytes[0..4], b"RITE");
    assert_eq!(&bytes[4..6], b"03");
    assert_eq!(&bytes[6..8], b"00");
    assert_eq!(&bytes[12..16], b"MASM");
    assert_eq!(&bytes[16..20], b"0000");
    // IREP section framing: ident, size = 12 + declared size, version tag
    assert_eq!(&bytes[20..24], b"IREP");
    assert_eq!(read_be32(&bytes, 24), 12 + 46);
    assert_eq!(&bytes[28..32], b"0300");
    // IREP body: declared size and counters
    assert_eq!(read_be32(&bytes, 32), 46);
    assert_eq!(&bytes[36..38], &[0, 1]); // nlocals
    assert_eq!(&bytes[38..40], &[0, 4]); // nregs
    assert_eq!(&bytes[40..42], &[0, 0]); // rlen
    assert_eq!(&bytes[42..44], &[0, 0]); // clen
    assert_eq!(read_be32(&bytes, 44), 10); // ilen
    assert_eq!(&bytes[48..58], &[81, 2, 0, 45, 1, 0, 1, 56, 1, 105]);
    // literal pool: count, then tag, length, "Hello", NUL
    assert_eq!(&bytes[58..60], &[0, 1]);
    assert_eq!(
        &bytes[60..69],
        &[0x00, 0x00, 0x05, 0x48, 0x65, 0x6C, 0x6C, 0x6F, 0x00]
    );
    // symbol table: count, then length, "puts", NUL
    assert_eq!(&bytes[69..71], &[0, 1]);
    assert_eq!(&bytes[71..73], &[0, 4]);
    assert_eq!(&bytes[73..77], b"puts");
    assert_eq!(bytes[77], 0);
    // END section
    assert_eq!(&bytes[78..82], &[b'E', b'N', b'D', 0]);
    assert_eq!(read_be32(&bytes, 82), 8);
    assert_eq!(bytes.len(), 86);
}

#[test]
fn backpatched_size_field_reads_back_as_total_length() {
    let bytes = sample_binary().encode().expect("encoding succeeds");
    assert_eq!(read_be32(&bytes, 8) as usize, bytes.len());
}

#[test]
fn fresh_binary_lacks_its_irep_body() {
    let bin = Binary::new();
    assert_eq!(bin.encode().unwrap_err(), EncodeError::MissingIrepBody);
}

#[test]
fn non_str_pool_item_is_rejected() {
    let mut bin = sample_binary();
    if let Some(body) = bin.sections[0].body_irep.as_mut() {
        body.pool.push(PoolItem::Int32(7));
    }
    assert_eq!(bin.encode().unwrap_err(), EncodeError::UnsupportedPoolItem);
}

#[test]
fn float_pool_item_is_rejected_too() {
    let mut bin = sample_binary();
    if let Some(body) = bin.sections[0].body_irep.as_mut() {
        body.pool = vec![PoolItem::Float(0x4000_0000_0000_0000)];
    }
    assert_eq!(bin.encode().unwrap_err(), EncodeError::UnsupportedPoolItem);
}

#[test]
fn nested_children_are_rejected_rather_than_dropped() {
    let mut bin = sample_binary();
    if let Some(body) = bin.sections[0].body_irep.as_mut() {
        body.children = vec![sample_irep()];
    }
    assert_eq!(bin.encode().unwrap_err(), EncodeError::ChildrenUnsupported);
}

#[test]
fn unknown_section_kind_is_rejected() {
    let mut bin = sample_binary();
    bin.sections[0].header.ident = [b'X', b'X', b'X', b'X'];
    assert_eq!(bin.encode().unwrap_err(), EncodeError::UnknownSectionKind);
}

#[test]
fn first_failing_section_decides_the_error() {
    // An IREP section with no body comes before one with a bad pool item.
    let mut bin = sample_binary();
    let mut extra = sample_binary().sections.remove(0);
    if let Some(body) = extra.body_irep.as_mut() {
        body.pool = vec![PoolItem::BigInt()];
    }
    bin.sections[0].body_irep = None;
    bin.sections.insert(1, extra);
    assert_eq!(bin.encode().unwrap_err(), EncodeError::MissingIrepBody);
}

#[test]
fn well_sized_accepts_the_sample_and_rejects_oversized_strings() {
    assert!(sample_binary().well_sized());
    let mut bin = sample_binary();
    if let Some(body) = bin.sections[0].body_irep.as_mut() {
        body.pool = vec![PoolItem::Str(vec![0u8; 0x1_0000])];
    }
    assert!(!bin.well_sized());
}

#[test]
fn fresh_binary_header_and_sections() {
    let bin = Binary::new();
    assert_eq!(bin.binary_header.ident, *b"RITE");
    assert_eq!(bin.binary_header.major_version, *b"03");
    assert_eq!(bin.binary_header.minor_version, *b"00");
    assert_eq!(bin.binary_header.size, -1);
    assert_eq!(bin.binary_header.compiler_name, *b"MASM");
    assert_eq!(bin.binary_header.compiler_version, *b"0000");
    assert_eq!(bin.sections.len(), 2);
    assert_eq!(bin.sections[0].header.ident, *b"IREP");
    assert_eq!(bin.sections[0].header.rite_version, Some(*b"0300"));
    assert!(bin.sections[0].body_irep.is_none());
    assert_eq!(bin.sections[1].header.ident, [b'E', b'N', b'D', 0]);
    assert_eq!(bin.sections[1].header.size, 8);
    assert!(bin.sections[1].header.rite_version.is_none());
}

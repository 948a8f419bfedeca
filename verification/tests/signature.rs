use fence_chip::signature::collect_signatures;
use fence_chip::signature::locate_signature;
use fence_chip::signature::parse_signature_symbols;
use fence_chip::signature::render_signatures;
use fence_chip::signature::signature_line;
use fence_chip::signature::ElfSymbol;
use fence_chip::signature::SignatureError;
use fence_chip::signature::STT_NOTYPE;
use fence_chip::signature::STT_OBJECT;

const STT_FUNC: u8 = 2;

fn symbol(symtype: u8, name: &str, value: u64) -> ElfSymbol {
    ElfSymbol { symtype, name: Some(String::from(name)), value }
}

fn put16(out: &mut Vec<u8>, v: u16) {
    out.extend_from_slice(&v.to_le_bytes());
}

fn put32(out: &mut Vec<u8>, v: u32) {
    out.extend_from_slice(&v.to_le_bytes());
}

/// A 32-bit little-endian ELF file that holds nothing but a string table
/// and, if asked for, a symbol table with the given symbols.
fn elf_file(symbols: &[(&str, u8, u32)], with_symtab: bool) -> Vec<u8> {
    let mut strtab: Vec<u8> = vec![0];
    let mut symtab: Vec<u8> = vec![0; 16];
    for (name, info, value) in symbols {
        let offset = strtab.len() as u32;
        strtab.extend_from_slice(name.as_bytes());
        strtab.push(0);
        put32(&mut symtab, offset);
        put32(&mut symtab, *value);
        put32(&mut symtab, 0);
        symtab.push(*info);
        symtab.push(0);
        put16(&mut symtab, 0);
    }
    let strtab_offset = 52u32;
    let symtab_offset = strtab_offset + strtab.len() as u32;
    let shoff = symtab_offset + symtab.len() as u32;

    let mut out: Vec<u8> = vec![0x7f, b'E', b'L', b'F', 1, 1, 1, 0, 0, 0, 0, 0, 0, 0, 0, 0];
    put16(&mut out, 2);
    put16(&mut out, 0xf3);
    put32(&mut out, 1);
    put32(&mut out, 0);
    put32(&mut out, 0);
    put32(&mut out, shoff);
    put32(&mut out, 0);
    put16(&mut out, 52);
    put16(&mut out, 32);
    put16(&mut out, 0);
    put16(&mut out, 40);
    put16(&mut out, 3);
    put16(&mut out, 0);
    assert_eq!(out.len(), 52);
    out.extend_from_slice(&strtab);
    out.extend_from_slice(&symtab);
    // The null section.
    out.extend_from_slice(&[0u8; 40]);
    // The symbol table, or a section of no particular type in its place.
    let symtab_type = if with_symtab { 2 } else { 1 };
    for v in [0, symtab_type, 0, 0, symtab_offset, symtab.len() as u32, 2, 0, 4, 16] {
        put32(&mut out, v);
    }
    // The string table.
    for v in [0, 3, 0, 0, strtab_offset, strtab.len() as u32, 0, 0, 1, 0] {
        put32(&mut out, v);
    }
    out
}

#[test]
fn signature_region_is_read_from_an_elf_file() {
    let file = elf_file(
        &[
            ("main", STT_FUNC, 0x1000),
            ("begin_signature", STT_OBJECT, 0x8000_2000),
            ("end_signature", STT_NOTYPE, 0x8000_2040),
        ],
        true,
    );
    assert_eq!(parse_signature_symbols(&file), Ok((0x8000_2000, 0x40)));
}

#[test]
fn binding_bits_do_not_change_the_symbol_type() {
    // Global binding in the high four bits of the info byte.
    let file = elf_file(
        &[("begin_signature", 0x11, 0x2000), ("end_signature", 0x10, 0x2010)],
        true,
    );
    assert_eq!(parse_signature_symbols(&file), Ok((0x2000, 0x10)));
    // A function symbol of the right name is no boundary.
    let file = elf_file(
        &[("begin_signature", 0x12, 0x2000), ("end_signature", 0x10, 0x2010)],
        true,
    );
    assert_eq!(parse_signature_symbols(&file), Err(SignatureError::MissingSymbols));
}

#[test]
fn file_without_boundaries_has_no_signature() {
    let file = elf_file(&[("main", STT_FUNC, 0x1000)], true);
    assert_eq!(parse_signature_symbols(&file), Err(SignatureError::MissingSymbols));
    let file = elf_file(&[("begin_signature", STT_OBJECT, 0x2000)], true);
    assert_eq!(parse_signature_symbols(&file), Err(SignatureError::MissingSymbols));
}

#[test]
fn file_without_symbol_table_has_no_signature() {
    let file = elf_file(&[("begin_signature", STT_OBJECT, 0x2000)], false);
    assert_eq!(parse_signature_symbols(&file), Err(SignatureError::NoSymbolTable));
}

#[test]
fn bytes_that_are_no_elf_file_are_malformed() {
    assert_eq!(parse_signature_symbols(&[]), Err(SignatureError::Malformed));
    assert_eq!(parse_signature_symbols(b"not an elf file at all"), Err(SignatureError::Malformed));
    let mut file = elf_file(&[("begin_signature", STT_OBJECT, 0x2000)], true);
    file[0] = 0;
    assert_eq!(parse_signature_symbols(&file), Err(SignatureError::Malformed));
}

#[test]
fn last_symbol_of_a_name_wins() {
    let symbols = vec![
        symbol(STT_OBJECT, "begin_signature", 0x100),
        symbol(STT_NOTYPE, "end_signature", 0x180),
        symbol(STT_NOTYPE, "begin_signature", 0x140),
        symbol(STT_FUNC, "begin_signature", 0x170),
        ElfSymbol { symtype: STT_OBJECT, name: None, value: 0x10 },
    ];
    assert_eq!(locate_signature(&symbols), Ok((0x140, 0x40)));
}

#[test]
fn region_must_not_run_backwards() {
    let symbols = vec![
        symbol(STT_OBJECT, "begin_signature", 0x200),
        symbol(STT_OBJECT, "end_signature", 0x100),
    ];
    assert_eq!(locate_signature(&symbols), Err(SignatureError::EndBeforeBegin));
    let symbols = vec![
        symbol(STT_OBJECT, "begin_signature", 0x200),
        symbol(STT_OBJECT, "end_signature", 0x200),
    ];
    assert_eq!(locate_signature(&symbols), Ok((0x200, 0)));
    assert_eq!(locate_signature(&Vec::new()), Err(SignatureError::MissingSymbols));
}

#[test]
fn begin_address_is_cut_to_32_bits() {
    let symbols = vec![
        symbol(STT_OBJECT, "begin_signature", 0x1_8000_0010),
        symbol(STT_OBJECT, "end_signature", 0x1_8000_0020),
    ];
    assert_eq!(locate_signature(&symbols), Ok((0x8000_0010, 0x10)));
}

#[test]
fn signature_is_collected_in_little_endian_words() {
    assert_eq!(collect_signatures(&[]), Vec::<u32>::new());
    assert_eq!(collect_signatures(&[0x78, 0x56, 0x34, 0x12]), vec![0x1234_5678]);
    assert_eq!(
        collect_signatures(&[1, 0, 0, 0, 0xff, 0xff, 0xff, 0xff]),
        vec![1, 0xffff_ffff]
    );
    // What is left over is filled up with zero bytes.
    assert_eq!(collect_signatures(&[0xaa]), vec![0xaa]);
    assert_eq!(collect_signatures(&[1, 2, 3, 4, 5, 6]), vec![0x0403_0201, 0x0605]);
    assert_eq!(collect_signatures(&[1, 2, 3, 4, 5, 6, 7]), vec![0x0403_0201, 0x0007_0605]);
    let words = collect_signatures(&[9, 8, 7, 6, 5, 4, 3, 2, 1]);
    assert_eq!(
        words,
        vec![
            u32::from_le_bytes([9, 8, 7, 6]),
            u32::from_le_bytes([5, 4, 3, 2]),
            u32::from_le_bytes([1, 0, 0, 0])
        ]
    );
}

#[test]
fn signature_is_rendered_as_hexadecimal_lines() {
    assert_eq!(signature_line(0), "00000000\n");
    assert_eq!(signature_line(0xdead_beef), "deadbeef\n");
    assert_eq!(signature_line(0x0123_4567), "01234567\n");
    assert_eq!(signature_line(0x89ab_cdef), "89abcdef\n");
    assert_eq!(render_signatures(&Vec::new()), "");
    assert_eq!(render_signatures(&vec![1, 0xffff_ffff, 0x10]), "00000001\nffffffff\n00000010\n");
    for word in [0u32, 1, 0xf, 0x10, 0xabc, 0x8000_0000, u32::MAX, 0x1234_5678] {
        assert_eq!(signature_line(word), format!("{:08x}\n", word));
    }
}

#[test]
fn signature_errors_say_what_went_wrong() {
    assert_eq!(SignatureError::NoSymbolTable.message(), "No symbol table found");
    assert_eq!(
        SignatureError::MissingSymbols.message(),
        "Could not find both begin_signature and end_signature symbols"
    );
    assert_eq!(
        SignatureError::Malformed.message(),
        "The bytes are not an ELF file that can be parsed"
    );
    assert_eq!(
        SignatureError::EndBeforeBegin.message(),
        "end_signature lies below begin_signature"
    );
    assert_eq!(SignatureError::RegionTooLarge.message(), "The signature region is too large");
}

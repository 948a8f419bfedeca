//! The signature region of a test program: where the ELF symbols
//! `begin_signature` and `end_signature` place it, the words read from it,
//! and their rendering as text.

use crate::text::hex_digit_text;
use crate::text::hex_digit;
use elf::ElfBytes;
use elf::endian::AnyEndian;
use elf::ParseError;
use vstd::prelude::*;
use vstd::string::*;

verus! {

/// `elf::ParseError`, opaque to the verifier.
#[verifier::external_type_specification]
#[verifier::external_body]
pub struct ExParseError(ParseError);

/// The symbol type of an untyped symbol.
pub const STT_NOTYPE: u8 = 0;

/// The symbol type of a data object.
pub const STT_OBJECT: u8 = 1;

/// One entry of an ELF symbol table.
#[derive(Debug, Clone, PartialEq, Eq)]
pub struct ElfSymbol {
    /// The symbol's type: the low four bits of the entry's info byte.
    pub symtype: u8,
    /// The symbol's name, or none where the string table yields no name at
    /// the entry's offset.
    pub name: Option<String>,
    /// The symbol's value: for these symbols an address.
    pub value: u64,
}

/// An entry of an ELF symbol table, with its name as characters.
pub struct SymbolView {
    /// The symbol's type.
    pub symtype: u8,
    /// The symbol's name.
    pub name: Option<Seq<char>>,
    /// The symbol's value.
    pub value: u64,
}

impl View for ElfSymbol {
    type V = SymbolView;

    open spec fn view(&self) -> SymbolView {
        SymbolView {
            symtype: self.symtype,
            name: match self.name {
                Some(name) => Some(name@),
                None => None,
            },
            value: self.value,
        }
    }
}

/// The views of a list of symbols, in order.
pub open spec fn symbol_views(symbols: Seq<ElfSymbol>) -> Seq<SymbolView> {
    Seq::new(symbols.len(), |i: int| symbols[i]@)
}

/// What the `elf` crate reads from the bytes of an ELF file: none where it
/// cannot parse them, else the entries of the symbol table in table order,
/// if the file has a symbol table.
pub uninterp spec fn elf_symbols(data: Seq<u8>) -> Option<Option<Seq<SymbolView>>>;

/// Why no signature region was found.
#[derive(Debug, Clone, Copy, PartialEq, Eq, Structural)]
pub enum SignatureError {
    /// The bytes are no ELF file that can be parsed.
    Malformed,
    /// The file has no symbol table.
    NoSymbolTable,
    /// One of `begin_signature` and `end_signature` is missing.
    MissingSymbols,
    /// `end_signature` lies below `begin_signature`.
    EndBeforeBegin,
    /// The region has more bytes than `usize` can count.
    RegionTooLarge,
}

/// Parses `data` with `ElfBytes::minimal_parse`, takes the symbol table and
/// its string table with `ElfBytes::symbol_table`, and hands out every
/// symbol that the table's iterator yields, with its type as
/// `Symbol::st_symtype` gives it and the name that `StringTable::get` finds
/// for it. The result is a function of the bytes
/// alone, which `elf_symbols` names.
#[verifier::external_body]
fn read_symbols(data: &[u8]) -> (r: Result<Option<Vec<ElfSymbol>>, ParseError>)
    ensures
        match r {
            Ok(Some(symbols)) => elf_symbols(data@) == Some(Some(symbol_views(symbols@))),
            Ok(None) => elf_symbols(data@) == Some(None::<Seq<SymbolView>>),
            Err(_) => elf_symbols(data@) is None,
        },
{
    let file = ElfBytes::<AnyEndian>::minimal_parse(data)?;
    Ok(
        file.symbol_table()?.map(
            |(symbols, strings)|
                symbols.iter().map(
                    |s|
                        ElfSymbol {
                            symtype: s.st_symtype(),
                            name: strings.get(s.st_name as usize).ok().map(String::from),
                            value: s.st_value,
                        },
                ).collect(),
        ),
    )
}

impl SignatureError {
    /// What went wrong, in words.
    pub open spec fn text(self) -> Seq<char> {
        match self {
            SignatureError::Malformed => "The bytes are not an ELF file that can be parsed"@,
            SignatureError::NoSymbolTable => "No symbol table found"@,
            SignatureError::MissingSymbols => "Could not find both begin_signature and end_signature symbols"@,
            SignatureError::EndBeforeBegin => "end_signature lies below begin_signature"@,
            SignatureError::RegionTooLarge => "The signature region is too large"@,
        }
    }

    /// What went wrong, in words.
    pub fn message(&self) -> (message: String)
        ensures
            message@ == self.text(),
    {
        match self {
            SignatureError::Malformed => String::from_str(
                "The bytes are not an ELF file that can be parsed",
            ),
            SignatureError::NoSymbolTable => String::from_str("No symbol table found"),
            SignatureError::MissingSymbols => String::from_str(
                "Could not find both begin_signature and end_signature symbols",
            ),
            SignatureError::EndBeforeBegin => String::from_str(
                "end_signature lies below begin_signature",
            ),
            SignatureError::RegionTooLarge => String::from_str("The signature region is too large"),
        }
    }
}

/// Whether the symbol marks a signature boundary called `name`: it is an
/// untyped symbol or a data object, and carries that name.
pub open spec fn marks(symbol: SymbolView, name: Seq<char>) -> bool {
    &&& (symbol.symtype == STT_OBJECT || symbol.symtype == STT_NOTYPE)
    &&& symbol.name == Some(name)
}

/// The value of the last symbol that marks `name`, if there is one.
pub open spec fn marked_value(symbols: Seq<SymbolView>, name: Seq<char>) -> Option<u64>
    decreases symbols.len(),
{
    if symbols.len() == 0 {
        None
    } else if marks(symbols.last(), name) {
        Some(symbols.last().value)
    } else {
        marked_value(symbols.drop_last(), name)
    }
}

/// The signature region that a symbol table describes: the address of
/// `begin_signature`, cut to 32 bits, and the number of bytes from there to
/// `end_signature`.
pub open spec fn signature_region(symbols: Seq<SymbolView>) -> Result<(u32, usize), SignatureError> {
    match (marked_value(symbols, "begin_signature"@), marked_value(symbols, "end_signature"@)) {
        (Some(begin), Some(end)) => {
            if end < begin {
                Err(SignatureError::EndBeforeBegin)
            } else if end - begin > usize::MAX {
                Err(SignatureError::RegionTooLarge)
            } else {
                Ok(((begin % 0x1_0000_0000) as u32, (end - begin) as usize))
            }
        },
        _ => Err(SignatureError::MissingSymbols),
    }
}

/// The signature region of an ELF file, given what the `elf` crate reads
/// from it.
pub open spec fn signature_of(parsed: Option<Option<Seq<SymbolView>>>) -> Result<
    (u32, usize),
    SignatureError,
> {
    match parsed {
        None => Err(SignatureError::Malformed),
        Some(None) => Err(SignatureError::NoSymbolTable),
        Some(Some(symbols)) => signature_region(symbols),
    }
}

/// Finds the signature region among the symbols of a symbol table.
pub fn locate_signature(symbols: &Vec<ElfSymbol>) -> (r: Result<(u32, usize), SignatureError>)
    ensures
        r == signature_region(symbol_views(symbols@)),
{
    let begin_name = String::from_str("begin_signature");
    let end_name = String::from_str("end_signature");
    let mut begin_signature_addr: Option<u64> = None;
    let mut end_signature_addr: Option<u64> = None;
    let ghost views = symbol_views(symbols@);
    proof {
        reveal_strlit("begin_signature");
        reveal_strlit("end_signature");
        assert("begin_signature"@.len() != "end_signature"@.len());
    }

    let mut i: usize = 0;
    while i < symbols.len()
        invariant
            i <= symbols.len(),
            "begin_signature"@ != "end_signature"@,
            views == symbol_views(symbols@),
            begin_name@ == "begin_signature"@,
            end_name@ == "end_signature"@,
            begin_signature_addr == marked_value(views.take(i as int), "begin_signature"@),
            end_signature_addr == marked_value(views.take(i as int), "end_signature"@),
        decreases symbols.len() - i,
    {
        let symbol = &symbols[i];
        proof {
            let now = views.take(i + 1);
            assert(now.drop_last() =~= views.take(i as int));
            assert(now.last() == symbol@);
        }
        if symbol.symtype == STT_OBJECT || symbol.symtype == STT_NOTYPE {
            if let Some(name) = &symbol.name {
                if *name == begin_name {
                    begin_signature_addr = Some(symbol.value);
                } else if *name == end_name {
                    end_signature_addr = Some(symbol.value);
                }
            }
        }
        i = i + 1;
    }
    assert(views.take(symbols.len() as int) =~= views);

    if let (Some(begin_addr), Some(end_addr)) = (begin_signature_addr, end_signature_addr) {
        if end_addr < begin_addr {
            return Err(SignatureError::EndBeforeBegin);
        }
        let size: u64 = end_addr - begin_addr;
        if size > usize::MAX as u64 {
            return Err(SignatureError::RegionTooLarge);
        }
        Ok(((begin_addr % 0x1_0000_0000) as u32, size as usize))
    } else {
        Err(SignatureError::MissingSymbols)
    }
}

/// Parses the symbols of an ELF file to find the boundaries of its
/// signature region.
pub fn parse_signature_symbols(elf_data: &[u8]) -> (r: Result<(u32, usize), SignatureError>)
    ensures
        r == signature_of(elf_symbols(elf_data@)),
{
    match read_symbols(elf_data) {
        Ok(Some(symbols)) => locate_signature(&symbols),
        Ok(None) => Err(SignatureError::NoSymbolTable),
        Err(_) => Err(SignatureError::Malformed),
    }
}

/// The byte at index `i` of a region, and zero past its end.
pub open spec fn byte_or_zero(memory: Seq<u8>, i: int) -> u8 {
    if 0 <= i < memory.len() {
        memory[i]
    } else {
        0
    }
}

/// The little-endian word that starts at byte `4 * k` of a region.
pub open spec fn word_at(memory: Seq<u8>, k: int) -> u32 {
    (byte_or_zero(memory, 4 * k) + 0x100 * byte_or_zero(memory, 4 * k + 1) + 0x1_0000
        * byte_or_zero(memory, 4 * k + 2) + 0x100_0000 * byte_or_zero(memory, 4 * k + 3)) as u32
}

/// The words of a region: one for every four bytes, and one more for what
/// is left over, filled up with zero bytes.
pub open spec fn signature_words(memory: Seq<u8>) -> Seq<u32> {
    Seq::new(((memory.len() + 3) / 4) as nat, |k: int| word_at(memory, k))
}

/// Collects the signature from the bytes of the signature region, in
/// chunks of four bytes read as little-endian words.
pub fn collect_signatures(memory: &[u8]) -> (signatures: Vec<u32>)
    ensures
        signatures@ == signature_words(memory@),
{
    let size: usize = memory.len();
    let mut signatures: Vec<u32> = Vec::new();

    // Read memory in 4-byte chunks
    let mut i: usize = 0;
    while i < size
        invariant
            size == memory@.len(),
            i % 4 == 0,
            i <= size + 3,
            signatures@.len() == i / 4,
            forall|k: int| 0 <= k < signatures@.len() ==> signatures@[k] == word_at(memory@, k),
        decreases size + 3 - i,
    {
        let b0: u32 = memory[i] as u32;
        let b1: u32 = if size - i > 1 {
            memory[i + 1] as u32
        } else {
            0
        };
        let b2: u32 = if size - i > 2 {
            memory[i + 2] as u32
        } else {
            0
        };
        let b3: u32 = if size - i > 3 {
            memory[i + 3] as u32
        } else {
            0
        };
        // Convert to a little-endian u32
        let signature: u32 = b0 + 0x100 * b1 + 0x1_0000 * b2 + 0x100_0000 * b3;
        assert(signature == word_at(memory@, i as int / 4));
        signatures.push(signature);
        if size - i <= 4 {
            assert(signatures@.len() == (size + 3) / 4);
            assert(signatures@ =~= signature_words(memory@));
            return signatures;
        }
        i = i + 4;
    }
    assert(signatures@ =~= signature_words(memory@));
    signatures
}

/// The line of text for one word: its eight hexadecimal digits, the most
/// significant first, and a line feed.
pub open spec fn hex_line(word: u32) -> Seq<char> {
    seq![
        hex_digit(word / 0x1000_0000 % 16),
        hex_digit(word / 0x100_0000 % 16),
        hex_digit(word / 0x10_0000 % 16),
        hex_digit(word / 0x1_0000 % 16),
        hex_digit(word / 0x1000 % 16),
        hex_digit(word / 0x100 % 16),
        hex_digit(word / 0x10 % 16),
        hex_digit(word % 16),
        '\n',
    ]
}

/// The text of a signature: the lines of its words, in order.
pub open spec fn signature_text(words: Seq<u32>) -> Seq<char>
    decreases words.len(),
{
    if words.len() == 0 {
        Seq::empty()
    } else {
        signature_text(words.drop_last()) + hex_line(words.last())
    }
}

/// Renders one word of a signature as a line of text.
pub fn signature_line(word: u32) -> (line: String)
    ensures
        line@ == hex_line(word),
{
    let mut line = String::new();
    line.append(hex_digit_text(word / 0x1000_0000 % 16));
    line.append(hex_digit_text(word / 0x100_0000 % 16));
    line.append(hex_digit_text(word / 0x10_0000 % 16));
    line.append(hex_digit_text(word / 0x1_0000 % 16));
    line.append(hex_digit_text(word / 0x1000 % 16));
    line.append(hex_digit_text(word / 0x100 % 16));
    line.append(hex_digit_text(word / 0x10 % 16));
    line.append(hex_digit_text(word % 16));
    proof {
        reveal_strlit("\n");
    }
    line.append("\n");
    assert(line@ =~= hex_line(word));
    line
}

/// Renders a signature as text: one line for each word.
pub fn render_signatures(signatures: &Vec<u32>) -> (text: String)
    ensures
        text@ == signature_text(signatures@),
{
    let mut text = String::new();
    let mut i: usize = 0;
    while i < signatures.len()
        invariant
            i <= signatures.len(),
            text@ == signature_text(signatures@.take(i as int)),
        decreases signatures.len() - i,
    {
        let line = signature_line(signatures[i]);
        proof {
            let now = signatures@.take(i + 1);
            assert(now.drop_last() =~= signatures@.take(i as int));
            assert(now.last() == signatures@[i as int]);
        }
        text.append(line.as_str());
        i = i + 1;
    }
    assert(signatures@.take(signatures.len() as int) =~= signatures@);
    text
}

} // verus!

//! One table-of-contents entry: where a packed file's bytes lie in the payload.
use crate::binary::{Binary, BinaryError, Field};
use crate::read::{self, parse_string, parse_u64};
use vstd::bytes::{spec_u32_to_le_bytes, spec_u64_to_le_bytes};
use vstd::prelude::*;
use vstd::utf8::encode_utf8;

verus! {

#[derive(Debug)]
pub struct File {
    /// Path relative to the packed directory, with `/` between components.
    pub path: String,
    /// Start of the content, counted from the start of the payload region.
    pub offset: u64,
    /// Length of the content in bytes.
    pub size: u64,
}

/// What an entry holds.
pub struct FileView {
    pub path: Seq<char>,
    pub offset: u64,
    pub size: u64,
}

impl View for File {
    type V = FileView;

    open spec fn view(&self) -> FileView {
        FileView { path: self.path@, offset: self.offset, size: self.size }
    }
}

/// Offset, size, then the path with a 32-bit length in front.
pub open spec fn encode_entry(f: FileView) -> Seq<u8> {
    spec_u64_to_le_bytes(f.offset) + spec_u64_to_le_bytes(f.size) + spec_u32_to_le_bytes(
        encode_utf8(f.path).len() as u32,
    ) + encode_utf8(f.path)
}

/// Decodes one entry; a failure names the field that could not be read.
pub open spec fn parse_entry(s: Seq<u8>) -> Result<(FileView, nat), BinaryError> {
    match parse_u64(s) {
        Err(_) => Err(BinaryError::SyntaxError(Field::EntryOffset)),
        Ok((offset, a)) => match parse_u64(s.skip(a as int)) {
            Err(_) => Err(BinaryError::SyntaxError(Field::EntrySize)),
            Ok((size, b)) => match parse_string(s.skip((a + b) as int)) {
                Err(_) => Err(BinaryError::SyntaxError(Field::EntryPath)),
                Ok((path, c)) => Ok((FileView { path, offset, size }, a + b + c)),
            },
        },
    }
}

/// The path's length fits its 32-bit prefix.
pub open spec fn entry_encodable(f: FileView) -> bool {
    encode_utf8(f.path).len() <= u32::MAX
}

impl File {
    pub fn new(path: String, offset: u64, size: u64) -> (r: Self)
        ensures
            r@ == (FileView { path: path@, offset, size }),
    {
        File { path, offset, size }
    }
}

impl Binary for File {
    open spec fn encodable(v: FileView) -> bool {
        entry_encodable(v)
    }

    open spec fn encoding(v: FileView) -> Seq<u8> {
        encode_entry(v)
    }

    open spec fn parse(s: Seq<u8>) -> Result<(FileView, nat), BinaryError> {
        parse_entry(s)
    }

    open spec fn validate(v: FileView) -> Result<(), BinaryError> {
        Ok(())
    }

    fn serialize(&self, writer: &mut Vec<u8>) {
        crate::write::u64(writer, self.offset);
        crate::write::u64(writer, self.size);
        crate::write::string(writer, self.path.as_str());
        assert(final(writer)@ =~= old(writer)@ + encode_entry(self@));
    }

    fn deserialize(data: &[u8], pos: &mut usize) -> (r: Result<Self, BinaryError>) {
        let start = *pos;
        let ghost s = data@.skip(start as int);
        let offset = match read::u64(data, pos) {
            Ok(v) => v,
            Err(_) => return Err(BinaryError::SyntaxError(Field::EntryOffset)),
        };
        assert(s.skip(8) =~= data@.skip(*pos as int));
        let size = match read::u64(data, pos) {
            Ok(v) => v,
            Err(_) => {
                *pos = start;
                return Err(BinaryError::SyntaxError(Field::EntrySize));
            },
        };
        assert(s.skip(16) =~= data@.skip(*pos as int));
        let path = match read::string(data, pos) {
            Ok(v) => v,
            Err(_) => {
                *pos = start;
                return Err(BinaryError::SyntaxError(Field::EntryPath));
            },
        };
        Ok(File { path, offset, size })
    }

    fn check(&self) -> (r: Result<(), BinaryError>) {
        Ok(())
    }
}

} // verus!

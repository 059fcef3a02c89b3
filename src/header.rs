//! The archive header: magic tag, producer identifier and format version.
use crate::binary::{Binary, BinaryError, Field, Version};
use crate::read::{self, parse_string_raw, parse_u8};
use vstd::prelude::*;
use vstd::utf8::{encode_utf8, is_ascii_chars, is_ascii_chars_encode_utf8};

verus! {

/// The tag that opens every archive.
pub const MAGIC: &'static str = "RASS";

/// Who writes the archives.
pub const PRODUCER: &'static str = "github.com/levilovie/rdss";

/// The encoded length of [`MAGIC`].
pub const MAGIC_LEN: u32 = 4;

/// The encoded length of [`PRODUCER`].
pub const PRODUCER_LEN: u32 = 25;

/// The version of the format that this library writes and reads.
pub const VERSION_MAJOR: u8 = 0;

pub const VERSION_MINOR: u8 = 1;

pub const VERSION_PATCH: u8 = 0;

pub open spec fn current_version() -> Version {
    Version { major: VERSION_MAJOR, minor: VERSION_MINOR, patch: VERSION_PATCH }
}

#[derive(Debug)]
pub struct Header {
    pub magic: String,
    pub producer: String,
    pub version_major: u8,
    pub version_minor: u8,
    pub version_patch: u8,
}

/// What a header holds.
pub struct HeaderView {
    pub magic: Seq<char>,
    pub producer: Seq<char>,
    pub version: Version,
}

impl View for Header {
    type V = HeaderView;

    open spec fn view(&self) -> HeaderView {
        HeaderView {
            magic: self.magic@,
            producer: self.producer@,
            version: Version {
                major: self.version_major,
                minor: self.version_minor,
                patch: self.version_patch,
            },
        }
    }
}

/// The header that this library writes.
pub open spec fn current_header() -> HeaderView {
    HeaderView { magic: MAGIC@, producer: PRODUCER@, version: current_version() }
}

/// The magic tag, a zero byte, the producer identifier, then the three
/// version bytes.
pub open spec fn encode_header(h: HeaderView) -> Seq<u8> {
    encode_utf8(h.magic) + seq![0u8] + encode_utf8(h.producer) + seq![
        h.version.major,
        h.version.minor,
        h.version.patch,
    ]
}

/// The identifying strings have the widths that a reader expects.
pub open spec fn header_encodable(h: HeaderView) -> bool {
    &&& encode_utf8(h.magic).len() == MAGIC_LEN
    &&& encode_utf8(h.producer).len() == PRODUCER_LEN
}

/// Decodes a header field by field; a failure names the field. The byte after
/// the magic tag only separates and its value is not read.
pub open spec fn parse_header(s: Seq<u8>) -> Result<(HeaderView, nat), BinaryError> {
    match parse_string_raw(s, MAGIC_LEN as nat) {
        Err(_) => Err(BinaryError::SyntaxError(Field::Magic)),
        Ok((magic, a)) => match parse_u8(s.skip(a as int)) {
            Err(_) => Err(BinaryError::SyntaxError(Field::Separator)),
            Ok((_, b)) => match parse_string_raw(s.skip((a + b) as int), PRODUCER_LEN as nat) {
                Err(_) => Err(BinaryError::SyntaxError(Field::Producer)),
                Ok((producer, c)) => match parse_u8(s.skip((a + b + c) as int)) {
                    Err(_) => Err(BinaryError::SyntaxError(Field::MajorVersion)),
                    Ok((major, d)) => match parse_u8(s.skip((a + b + c + d) as int)) {
                        Err(_) => Err(BinaryError::SyntaxError(Field::MinorVersion)),
                        Ok((minor, e)) => match parse_u8(s.skip((a + b + c + d + e) as int)) {
                            Err(_) => Err(BinaryError::SyntaxError(Field::PatchVersion)),
                            Ok((patch, f)) => Ok(
                                (
                                    HeaderView {
                                        magic,
                                        producer,
                                        version: Version { major, minor, patch },
                                    },
                                    a + b + c + d + e + f,
                                ),
                            ),
                        },
                    },
                },
            },
        },
    }
}

/// The magic tag, then the producer, then the version must be this library's.
pub open spec fn validate_header(h: HeaderView) -> Result<(), BinaryError> {
    if h.magic != MAGIC@ {
        Err(BinaryError::IdentityMismatch(Field::Magic))
    } else if h.producer != PRODUCER@ {
        Err(BinaryError::IdentityMismatch(Field::Producer))
    } else if h.version != current_version() {
        Err(BinaryError::IncorrectVersion { expected: current_version(), found: h.version })
    } else {
        Ok(())
    }
}

/// The constant strings are ASCII, of the widths the format fixes.
pub proof fn lemma_constant_widths()
    ensures
        encode_utf8(MAGIC@).len() == MAGIC_LEN,
        encode_utf8(PRODUCER@).len() == PRODUCER_LEN,
        header_encodable(current_header()),
{
    reveal_strlit("RASS");
    reveal_strlit("github.com/levilovie/rdss");
    assert(is_ascii_chars(MAGIC@));
    assert(is_ascii_chars(PRODUCER@));
    is_ascii_chars_encode_utf8(MAGIC@);
    is_ascii_chars_encode_utf8(PRODUCER@);
}

/// Compares two strings by their characters.
fn same_text(a: &String, b: &str) -> (r: bool)
    ensures
        r == (a@ == b@),
{
    let owned = b.to_owned();
    *a == owned
}

impl Header {
    /// The header of an archive written now.
    pub fn new() -> (r: Self)
        ensures
            r@ == current_header(),
    {
        Header {
            magic: MAGIC.to_owned(),
            producer: PRODUCER.to_owned(),
            version_major: VERSION_MAJOR,
            version_minor: VERSION_MINOR,
            version_patch: VERSION_PATCH,
        }
    }

    /// Accepts exactly this library's version.
    pub fn check_version(&self) -> (r: Result<(), BinaryError>)
        ensures
            r == if self@.version == current_version() {
                Ok(())
            } else {
                Err(BinaryError::IncorrectVersion { expected: current_version(), found: self@.version })
            },
    {
        let expected = Version { major: VERSION_MAJOR, minor: VERSION_MINOR, patch: VERSION_PATCH };
        let found = Version {
            major: self.version_major,
            minor: self.version_minor,
            patch: self.version_patch,
        };
        if found.major != expected.major || found.minor != expected.minor || found.patch
            != expected.patch {
            return Err(BinaryError::IncorrectVersion { expected, found });
        }
        Ok(())
    }
}

impl Binary for Header {
    open spec fn encodable(v: HeaderView) -> bool {
        header_encodable(v)
    }

    open spec fn encoding(v: HeaderView) -> Seq<u8> {
        encode_header(v)
    }

    open spec fn parse(s: Seq<u8>) -> Result<(HeaderView, nat), BinaryError> {
        parse_header(s)
    }

    open spec fn validate(v: HeaderView) -> Result<(), BinaryError> {
        validate_header(v)
    }

    fn serialize(&self, writer: &mut Vec<u8>) {
        crate::write::string_raw(writer, self.magic.as_str());
        crate::write::u8(writer, 0);
        crate::write::string_raw(writer, self.producer.as_str());
        crate::write::u8(writer, self.version_major);
        crate::write::u8(writer, self.version_minor);
        crate::write::u8(writer, self.version_patch);
        assert(final(writer)@ =~= old(writer)@ + encode_header(self@));
    }

    fn deserialize(data: &[u8], pos: &mut usize) -> (r: Result<Self, BinaryError>) {
        let start = *pos;
        let ghost s = data@.skip(start as int);
        let magic = match read::string_raw(data, pos, MAGIC_LEN) {
            Ok(v) => v,
            Err(_) => return Err(BinaryError::SyntaxError(Field::Magic)),
        };
        assert(s.skip(MAGIC_LEN as int) =~= data@.skip(*pos as int));
        if read::u8(data, pos).is_err() {
            *pos = start;
            return Err(BinaryError::SyntaxError(Field::Separator));
        }
        assert(s.skip(MAGIC_LEN + 1) =~= data@.skip(*pos as int));
        let producer = match read::string_raw(data, pos, PRODUCER_LEN) {
            Ok(v) => v,
            Err(_) => {
                *pos = start;
                return Err(BinaryError::SyntaxError(Field::Producer));
            },
        };
        let ghost k: int = MAGIC_LEN + 1 + PRODUCER_LEN;
        assert(s.skip(k) =~= data@.skip(*pos as int));
        let version_major = match read::u8(data, pos) {
            Ok(v) => v,
            Err(_) => {
                *pos = start;
                return Err(BinaryError::SyntaxError(Field::MajorVersion));
            },
        };
        assert(s.skip(k + 1) =~= data@.skip(*pos as int));
        let version_minor = match read::u8(data, pos) {
            Ok(v) => v,
            Err(_) => {
                *pos = start;
                return Err(BinaryError::SyntaxError(Field::MinorVersion));
            },
        };
        assert(s.skip(k + 2) =~= data@.skip(*pos as int));
        let version_patch = match read::u8(data, pos) {
            Ok(v) => v,
            Err(_) => {
                *pos = start;
                return Err(BinaryError::SyntaxError(Field::PatchVersion));
            },
        };
        Ok(Header { magic, producer, version_major, version_minor, version_patch })
    }

    fn check(&self) -> (r: Result<(), BinaryError>) {
        if !same_text(&self.magic, MAGIC) {
            return Err(BinaryError::IdentityMismatch(Field::Magic));
        }
        if !same_text(&self.producer, PRODUCER) {
            return Err(BinaryError::IdentityMismatch(Field::Producer));
        }
        self.check_version()
    }
}

} // verus!

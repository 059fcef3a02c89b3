//! The container: a header followed by the table of contents.
use crate::binary::{Binary, BinaryError, Field};
use crate::file::{encode_entry, entry_encodable, parse_entry, File, FileView};
use crate::header::{
    current_header, encode_header, header_encodable, lemma_constant_widths, parse_header,
    validate_header, Header, HeaderView,
};
use crate::read::{self, parse_u32};
use vstd::bytes::spec_u32_to_le_bytes;
use vstd::prelude::*;

verus! {

#[derive(Debug)]
pub struct Format {
    pub header: Header,
    pub files: Vec<File>,
}

/// What a container holds.
pub struct FormatView {
    pub header: HeaderView,
    pub files: Seq<FileView>,
}

pub open spec fn entries_view(files: Seq<File>) -> Seq<FileView> {
    files.map_values(|f: File| f@)
}

impl View for Format {
    type V = FormatView;

    open spec fn view(&self) -> FormatView {
        FormatView { header: self.header@, files: entries_view(self.files@) }
    }
}

/// The entries one after another.
pub open spec fn encode_entries(fs: Seq<FileView>) -> Seq<u8>
    decreases fs.len(),
{
    if fs.len() == 0 {
        Seq::empty()
    } else {
        encode_entries(fs.drop_last()) + encode_entry(fs.last())
    }
}

/// The header, the 32-bit entry count, then the entries.
pub open spec fn encode_format(f: FormatView) -> Seq<u8> {
    encode_header(f.header) + spec_u32_to_le_bytes(f.files.len() as u32) + encode_entries(f.files)
}

/// Decodes `n` entries one after another.
pub open spec fn parse_entries(s: Seq<u8>, n: nat) -> Result<(Seq<FileView>, nat), BinaryError>
    decreases n,
{
    if n == 0 {
        Ok((Seq::empty(), 0))
    } else {
        match parse_entries(s, (n - 1) as nat) {
            Err(e) => Err(e),
            Ok((fs, k)) => match parse_entry(s.skip(k as int)) {
                Err(e) => Err(e),
                Ok((f, m)) => Ok((fs.push(f), k + m)),
            },
        }
    }
}

pub open spec fn parse_format(s: Seq<u8>) -> Result<(FormatView, nat), BinaryError> {
    match parse_header(s) {
        Err(e) => Err(e),
        Ok((header, a)) => match parse_u32(s.skip(a as int)) {
            Err(_) => Err(BinaryError::SyntaxError(Field::EntryCount)),
            Ok((count, b)) => match parse_entries(s.skip((a + b) as int), count as nat) {
                Err(e) => Err(e),
                Ok((files, c)) => Ok((FormatView { header, files }, a + b + c)),
            },
        },
    }
}

/// No two entries share a path.
pub open spec fn unique_paths(fs: Seq<FileView>) -> bool {
    forall|i: int, j: int| 0 <= i < j < fs.len() ==> fs[i].path != fs[j].path
}

/// The header's checks, then unique paths.
pub open spec fn validate_format(f: FormatView) -> Result<(), BinaryError> {
    match validate_header(f.header) {
        Err(e) => Err(e),
        Ok(()) => if unique_paths(f.files) {
            Ok(())
        } else {
            Err(BinaryError::DuplicatePath)
        },
    }
}

/// The count and every path fit their 32-bit prefixes.
pub open spec fn format_encodable(f: FormatView) -> bool {
    &&& header_encodable(f.header)
    &&& f.files.len() <= u32::MAX
    &&& forall|i: int| 0 <= i < f.files.len() ==> entry_encodable(#[trigger] f.files[i])
}

/// A failure among the first `i` entries is a failure for every larger count.
pub proof fn lemma_parse_entries_err(s: Seq<u8>, i: nat, n: nat)
    requires
        i <= n,
        parse_entries(s, i) is Err,
    ensures
        parse_entries(s, n) == parse_entries(s, i),
    decreases n - i,
{
    if i < n {
        lemma_parse_entries_err(s, i, (n - 1) as nat);
    }
}

impl Format {
    /// An empty container with this library's header.
    pub fn new() -> (r: Self)
        ensures
            r@ == (FormatView { header: current_header(), files: Seq::empty() }),
            format_encodable(r@),
    {
        proof {
            lemma_constant_widths();
        }
        let r = Format { header: Header::new(), files: Vec::new() };
        assert(r@.files =~= Seq::<FileView>::empty());
        r
    }

    pub fn add_file(&mut self, file: File)
        ensures
            final(self)@ == (FormatView {
                header: old(self)@.header,
                files: old(self)@.files.push(file@),
            }),
    {
        self.files.push(file);
        assert(entries_view(self.files@) =~= old(self)@.files.push(file@));
    }

    pub fn add_files(&mut self, files: Vec<File>)
        ensures
            final(self)@ == (FormatView {
                header: old(self)@.header,
                files: old(self)@.files + entries_view(files@),
            }),
    {
        let ghost added = files@;
        let mut files = files;
        self.files.append(&mut files);
        assert(entries_view(self.files@) =~= old(self)@.files + entries_view(added));
    }
}

impl Binary for Format {
    open spec fn encodable(v: FormatView) -> bool {
        format_encodable(v)
    }

    open spec fn encoding(v: FormatView) -> Seq<u8> {
        encode_format(v)
    }

    open spec fn parse(s: Seq<u8>) -> Result<(FormatView, nat), BinaryError> {
        parse_format(s)
    }

    open spec fn validate(v: FormatView) -> Result<(), BinaryError> {
        validate_format(v)
    }

    fn serialize(&self, writer: &mut Vec<u8>) {
        self.header.serialize(writer);
        crate::write::u32(writer, self.files.len() as u32);
        let ghost prefix = writer@;
        let mut i: usize = 0;
        while i < self.files.len()
            invariant
                i <= self.files@.len(),
                format_encodable(self@),
                writer@ == prefix + encode_entries(entries_view(self.files@).take(i as int)),
            decreases self.files@.len() - i,
        {
            proof {
                assert(entry_encodable(self@.files[i as int]));
            }
            self.files[i].serialize(writer);
            proof {
                let fs = entries_view(self.files@);
                assert(fs.take(i + 1).drop_last() =~= fs.take(i as int));
            }
            i = i + 1;
        }
        assert(entries_view(self.files@).take(i as int) =~= self@.files);
        assert(final(writer)@ =~= old(writer)@ + encode_format(self@));
    }

    fn deserialize(data: &[u8], pos: &mut usize) -> (r: Result<Self, BinaryError>) {
        let start = *pos;
        let ghost s = data@.skip(start as int);
        let header = Header::deserialize(data, pos)?;
        let ghost a = *pos - start;
        assert(s.skip(a) =~= data@.skip(*pos as int));
        let count = match read::u32(data, pos) {
            Ok(v) => v,
            Err(_) => {
                *pos = start;
                return Err(BinaryError::SyntaxError(Field::EntryCount));
            },
        };
        let ghost t = s.skip(a + 4);
        assert(t =~= data@.skip(*pos as int));
        assert(parse_header(s) == Ok::<(HeaderView, nat), BinaryError>((header@, a as nat)));
        assert(parse_u32(s.skip(a)) == Ok::<(u32, nat), BinaryError>((count, 4)));
        let entries_start = *pos;
        let mut files: Vec<File> = Vec::new();
        let mut i: u32 = 0;
        assert(entries_view(files@) =~= Seq::<FileView>::empty());
        while i < count
            invariant
                i <= count,
                entries_start <= *pos <= data@.len(),
                t == data@.skip(entries_start as int),
                s == data@.skip(start as int),
                0 <= a,
                start == *old(pos),
                t == s.skip(a + 4),
                parse_header(s) == Ok::<(HeaderView, nat), BinaryError>((header@, a as nat)),
                parse_u32(s.skip(a)) == Ok::<(u32, nat), BinaryError>((count, 4)),
                parse_entries(t, i as nat) == Ok::<(Seq<FileView>, nat), BinaryError>(
                    (entries_view(files@), (*pos - entries_start) as nat),
                ),
            decreases count - i,
        {
            assert(t.skip(*pos - entries_start) =~= data@.skip(*pos as int));
            let file = match File::deserialize(data, pos) {
                Ok(f) => f,
                Err(e) => {
                    assert(parse_entries(t, (i + 1) as nat) == Err::<(Seq<FileView>, nat), BinaryError>(e));
                    proof {
                        lemma_parse_entries_err(t, (i + 1) as nat, count as nat);
                        assert(parse_format(s) == Err::<(FormatView, nat), BinaryError>(e));
                    }
                    *pos = start;
                    return Err(e);
                },
            };
            let ghost before = entries_view(files@);
            files.push(file);
            assert(entries_view(files@) =~= before.push(file@));
            i = i + 1;
        }
        Ok(Format { header, files })
    }

    fn check(&self) -> (r: Result<(), BinaryError>) {
        match self.header.check() {
            Err(e) => return Err(e),
            Ok(()) => {},
        }
        let n = self.files.len();
        let mut i: usize = 0;
        while i < n
            invariant
                n == self.files@.len(),
                i <= n,
                validate_header(self@.header) == Ok::<(), BinaryError>(()),
                forall|a: int, b: int| 0 <= a < b < n && a < i ==> self@.files[a].path
                    != self@.files[b].path,
            decreases n - i,
        {
            let mut j: usize = i + 1;
            while j < n
                invariant
                    n == self.files@.len(),
                    i < j <= n,
                    validate_header(self@.header) == Ok::<(), BinaryError>(()),
                    forall|a: int, b: int| 0 <= a < b < n && a < i ==> self@.files[a].path
                        != self@.files[b].path,
                    forall|b: int| i < b < j ==> self@.files[i as int].path != self@.files[b].path,
                decreases n - j,
            {
                if self.files[i].path == self.files[j].path {
                    assert(!unique_paths(self@.files)) by {
                        assert(self@.files[i as int].path == self@.files[j as int].path);
                    }
                    return Err(BinaryError::DuplicatePath);
                }
                j = j + 1;
            }
            i = i + 1;
        }
        Ok(())
    }
}

} // verus!

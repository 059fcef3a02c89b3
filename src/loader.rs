//! The archive loader: reads the header and table of contents once, then
//! serves single files by path out of the payload region.
use crate::binary::{Binary, BinaryError};
use crate::file::{File, FileView};
use crate::format::{entries_view, parse_format, unique_paths, validate_format, Format, FormatView};
use crate::read::utf8_string;
use vstd::prelude::*;
use vstd::slice::{slice_subrange, slice_to_vec};
use vstd::utf8::{decode_utf8, valid_utf8};

verus! {

#[derive(Debug)]
pub enum LoaderError {
    /// The archive file cannot be opened.
    BinaryDoesNotExist(String),
    /// No entry has this path.
    FileNotFound(String),
    /// The archive is malformed, or was written by another producer or version.
    DeserializationFailed(BinaryError),
    /// The entry for this path runs past the end of the archive.
    TruncatedArchive(String),
    /// The content at this path is not UTF-8.
    InvalidEncoding(String),
    /// No archive has been loaded yet.
    NotLoaded,
}

/// What loading `archive` yields: the parsed container with the position of
/// the payload region, or the reason it was refused.
pub open spec fn load_result(archive: Seq<u8>) -> Result<(FormatView, nat), BinaryError> {
    match parse_format(archive) {
        Err(e) => Err(e),
        Ok((f, n)) => match validate_format(f) {
            Err(e) => Err(e),
            Ok(()) => Ok((f, n)),
        },
    }
}

/// The entry with path `p`, if any.
pub open spec fn find_entry(fs: Seq<FileView>, p: Seq<char>) -> Option<FileView> {
    if exists|i: int| 0 <= i < fs.len() && fs[i].path == p {
        Some(fs[choose|i: int| 0 <= i < fs.len() && fs[i].path == p])
    } else {
        None
    }
}

/// The bytes of entry `e` in `archive`, whose payload region starts at
/// `start`; `None` when they run past the end.
pub open spec fn content_of(archive: Seq<u8>, start: nat, e: FileView) -> Option<Seq<u8>> {
    if start + e.offset + e.size <= archive.len() {
        Some(archive.subrange(start + e.offset, start + e.offset + e.size))
    } else {
        None
    }
}

pub struct Loader {
    binary: String,
    files: Vec<File>,
    start: u64,
    loaded: bool,
}

impl Loader {
    #[verifier::type_invariant]
    spec fn inv(&self) -> bool {
        &&& unique_paths(entries_view(self.files@))
        &&& !self.loaded ==> self.files@.len() == 0
    }

    /// The path of the archive.
    pub closed spec fn binary_path(&self) -> Seq<char> {
        self.binary@
    }

    /// A table of contents has been read.
    pub closed spec fn is_loaded(&self) -> bool {
        self.loaded
    }

    /// The entries, in table-of-contents order; empty until loaded.
    pub closed spec fn entries(&self) -> Seq<FileView> {
        entries_view(self.files@)
    }

    /// Where the payload region starts in the archive.
    pub closed spec fn payload_start(&self) -> nat {
        self.start as nat
    }

    /// A loader for the archive at `binary`, with nothing loaded.
    pub fn new(binary: &str) -> (r: Self)
        ensures
            r.binary_path() == binary@,
            !r.is_loaded(),
            r.entries().len() == 0,
    {
        let r = Loader { binary: binary.to_owned(), files: Vec::new(), start: 0, loaded: false };
        assert(r.entries() =~= Seq::<FileView>::empty());
        r
    }

    /// The path of the archive.
    pub fn binary(&self) -> (r: &str)
        ensures
            r@ == self.binary_path(),
    {
        self.binary.as_str()
    }

    /// The paths of all entries, in table-of-contents order.
    pub fn files(&self) -> (r: Result<Vec<String>, LoaderError>)
        ensures
            !self.is_loaded() ==> r is Err && r->Err_0 is NotLoaded,
            self.is_loaded() ==> r is Ok && r->Ok_0@.len() == self.entries().len() && forall|i: int|
                0 <= i < self.entries().len() ==> #[trigger] r->Ok_0@[i]@ == self.entries()[i].path,
    {
        if !self.loaded {
            return Err(LoaderError::NotLoaded);
        }
        let mut out: Vec<String> = Vec::new();
        let mut i: usize = 0;
        while i < self.files.len()
            invariant
                i <= self.files@.len(),
                out@.len() == i,
                forall|k: int| 0 <= k < i ==> #[trigger] out@[k]@ == self.entries()[k].path,
            decreases self.files@.len() - i,
        {
            out.push(self.files[i].path.clone());
            i = i + 1;
        }
        Ok(out)
    }

    /// Reads the header and table of contents at the start of `archive`,
    /// checks them, and remembers the entries and where the payload starts.
    /// On failure nothing stays loaded.
    pub fn load(&mut self, archive: &[u8]) -> (r: Result<(), LoaderError>)
        ensures
            final(self).binary_path() == old(self).binary_path(),
            match load_result(archive@) {
                Ok((f, n)) => r is Ok && final(self).is_loaded() && final(self).entries() == f.files
                    && final(self).payload_start() == n,
                Err(e) => r == Err::<(), LoaderError>(LoaderError::DeserializationFailed(e))
                    && !final(self).is_loaded() && final(self).entries().len() == 0,
            },
    {
        let binary = self.binary.clone();
        *self = Loader { binary, files: Vec::new(), start: 0, loaded: false };
        let mut pos: usize = 0;
        assert(archive@.skip(0) =~= archive@);
        let format = match Format::deserialize(archive, &mut pos) {
            Ok(f) => f,
            Err(e) => return Err(LoaderError::DeserializationFailed(e)),
        };
        match format.check() {
            Err(e) => return Err(LoaderError::DeserializationFailed(e)),
            Ok(()) => {},
        }
        let binary = self.binary.clone();
        *self = Loader { binary, files: format.files, start: pos as u64, loaded: true };
        Ok(())
    }

    /// The index of the entry with path `path`, if any.
    fn position(&self, path: &str) -> (r: Option<usize>)
        ensures
            r is None ==> find_entry(self.entries(), path@) is None,
            r is Some ==> r->Some_0 < self.entries().len() && find_entry(self.entries(), path@)
                == Some(self.entries()[r->Some_0 as int]),
    {
        proof {
            use_type_invariant(self);
        }
        let ghost fs = self.entries();
        let target = path.to_owned();
        let mut i: usize = 0;
        while i < self.files.len()
            invariant
                fs == self.entries(),
                unique_paths(fs),
                target@ == path@,
                i <= fs.len(),
                forall|k: int| 0 <= k < i ==> fs[k].path != path@,
            decreases fs.len() - i,
        {
            if self.files[i].path == target {
                proof {
                    let c = choose|k: int| 0 <= k < fs.len() && fs[k].path == path@;
                    assert(fs[i as int].path == path@);
                    if c != i {
                        if c < i {
                            assert(fs[c].path != fs[i as int].path);
                        } else {
                            assert(fs[i as int].path != fs[c].path);
                        }
                    }
                }
                return Some(i);
            }
            i = i + 1;
        }
        None
    }

    /// The stored bytes of the entry `path`, taken from `archive`, the bytes
    /// of the archive file that was loaded.
    pub fn read_raw(&self, path: &str, archive: &[u8]) -> (r: Result<Vec<u8>, LoaderError>)
        ensures
            !self.is_loaded() ==> r is Err && r->Err_0 is NotLoaded,
            self.is_loaded() && find_entry(self.entries(), path@) is None ==> r is Err
                && r->Err_0 is FileNotFound && r->Err_0->FileNotFound_0@ == path@,
            self.is_loaded() && find_entry(self.entries(), path@) is Some ==> match content_of(
                archive@,
                self.payload_start(),
                find_entry(self.entries(), path@)->Some_0,
            ) {
                Some(c) => r is Ok && r->Ok_0@ == c,
                None => r is Err && r->Err_0 is TruncatedArchive && r->Err_0->TruncatedArchive_0@
                    == path@,
            },
    {
        if !self.loaded {
            return Err(LoaderError::NotLoaded);
        }
        let i = match self.position(path) {
            Some(i) => i,
            None => return Err(LoaderError::FileNotFound(path.to_owned())),
        };
        let entry = &self.files[i];
        let len = archive.len() as u64;
        if self.start > len || entry.offset > len - self.start || entry.size > len - self.start
            - entry.offset {
            return Err(LoaderError::TruncatedArchive(path.to_owned()));
        }
        let from = (self.start + entry.offset) as usize;
        let to = from + entry.size as usize;
        Ok(slice_to_vec(slice_subrange(archive, from, to)))
    }

    /// The entry `path` as text: its stored bytes, which must be UTF-8.
    pub fn read(&self, path: &str, archive: &[u8]) -> (r: Result<String, LoaderError>)
        ensures
            !self.is_loaded() ==> r is Err && r->Err_0 is NotLoaded,
            self.is_loaded() && find_entry(self.entries(), path@) is None ==> r is Err
                && r->Err_0 is FileNotFound && r->Err_0->FileNotFound_0@ == path@,
            self.is_loaded() && find_entry(self.entries(), path@) is Some ==> match content_of(
                archive@,
                self.payload_start(),
                find_entry(self.entries(), path@)->Some_0,
            ) {
                Some(c) => if valid_utf8(c) {
                    r is Ok && r->Ok_0@ == decode_utf8(c)
                } else {
                    r is Err && r->Err_0 is InvalidEncoding && r->Err_0->InvalidEncoding_0@ == path@
                },
                None => r is Err && r->Err_0 is TruncatedArchive && r->Err_0->TruncatedArchive_0@
                    == path@,
            },
    {
        let bytes = self.read_raw(path, archive)?;
        match utf8_string(bytes) {
            Some(s) => Ok(s),
            None => Err(LoaderError::InvalidEncoding(path.to_owned())),
        }
    }
}

} // verus!

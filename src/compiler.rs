//! The archive builder: lays out the files that were read from a source tree
//! and produces the complete archive bytes.
use crate::binary::Binary;
use crate::file::{entry_encodable, File, FileView};
use crate::format::{encode_format, format_encodable, Format, FormatView};
use crate::header::{current_header, lemma_constant_widths};
use vstd::prelude::*;
use vstd::string::StrSliceExecFns;
use vstd::utf8::encode_utf8;

verus! {

#[derive(Debug)]
pub enum CompilerBuilderError {
    NoSourcesPath,
    NoBinaryPath,
}

/// Collects the two paths that a [`Compiler`] needs.
pub struct CompilerBuilder {
    sources: Option<String>,
    binary: Option<String>,
}

impl Default for CompilerBuilder {
    /// A builder with neither path set.
    fn default() -> (r: Self)
        ensures
            r.sources_path() is None,
            r.binary_path() is None,
    {
        CompilerBuilder { sources: None, binary: None }
    }
}

impl CompilerBuilder {
    pub closed spec fn sources_path(&self) -> Option<Seq<char>> {
        match self.sources {
            Some(s) => Some(s@),
            None => None,
        }
    }

    pub closed spec fn binary_path(&self) -> Option<Seq<char>> {
        match self.binary {
            Some(s) => Some(s@),
            None => None,
        }
    }

    /// Sets the directory whose files are packed.
    pub fn from_sources(self, sources: String) -> (r: Self)
        ensures
            r.sources_path() == Some(sources@),
            r.binary_path() == self.binary_path(),
    {
        CompilerBuilder { sources: Some(sources), binary: self.binary }
    }

    /// Sets the archive to write.
    pub fn save_to(self, binary: String) -> (r: Self)
        ensures
            r.sources_path() == self.sources_path(),
            r.binary_path() == Some(binary@),
    {
        CompilerBuilder { sources: self.sources, binary: Some(binary) }
    }

    /// A compiler, once both paths are set; the sources are asked for first.
    pub fn build(self) -> (r: Result<Compiler, CompilerBuilderError>)
        ensures
            self.sources_path() is None ==> r is Err && r->Err_0 is NoSourcesPath,
            self.sources_path() is Some && self.binary_path() is None ==> r is Err
                && r->Err_0 is NoBinaryPath,
            self.sources_path() is Some && self.binary_path() is Some ==> r is Ok
                && r->Ok_0.sources_path() == self.sources_path()->Some_0
                && r->Ok_0.binary_path() == self.binary_path()->Some_0,
    {
        let sources = match self.sources {
            Some(s) => s,
            None => return Err(CompilerBuilderError::NoSourcesPath),
        };
        let binary = match self.binary {
            Some(b) => b,
            None => return Err(CompilerBuilderError::NoBinaryPath),
        };
        Ok(Compiler { sources, binary })
    }
}

#[derive(Debug)]
pub enum CompilerError {
    /// The source directory does not exist.
    SourcesDoNotExist,
    /// A source could not be read: its path, then the reason.
    FailedReadSource(String, String),
    /// The archive path has no parent directory.
    FailedGetBinaryParent,
    /// The archive's directory could not be created.
    FailedCreateBinary(String),
    /// The archive could not be opened: its path, then the reason.
    FailedOpenBinary(String, String),
    /// The archive's contents could not be written.
    FailedWriteContents(String),
    /// Two sources have this relative path.
    DuplicatePath(String),
    /// Too many sources, a path too long, or contents past 2^64 bytes.
    ArchiveTooLarge,
}

/// A file read from the source tree.
pub struct SourceFile {
    /// Path relative to the source directory, with `/` between components.
    pub path: String,
    pub content: Vec<u8>,
}

pub struct SourceView {
    pub path: Seq<char>,
    pub content: Seq<u8>,
}

impl View for SourceFile {
    type V = SourceView;

    open spec fn view(&self) -> SourceView {
        SourceView { path: self.path@, content: self.content@ }
    }
}

pub open spec fn sources_view(s: Seq<SourceFile>) -> Seq<SourceView> {
    s.map_values(|f: SourceFile| f@)
}

/// The combined length of all contents.
pub open spec fn total_size(v: Seq<SourceView>) -> nat
    decreases v.len(),
{
    if v.len() == 0 {
        0
    } else {
        total_size(v.drop_last()) + v.last().content.len()
    }
}

/// All contents back to back.
pub open spec fn payload(v: Seq<SourceView>) -> Seq<u8>
    decreases v.len(),
{
    if v.len() == 0 {
        Seq::empty()
    } else {
        payload(v.drop_last()) + v.last().content
    }
}

/// One entry per source, in order, each starting where the one before ends.
pub open spec fn layout(v: Seq<SourceView>) -> Seq<FileView>
    decreases v.len(),
{
    if v.len() == 0 {
        Seq::empty()
    } else {
        layout(v.drop_last()).push(
            FileView {
                path: v.last().path,
                offset: total_size(v.drop_last()) as u64,
                size: v.last().content.len() as u64,
            },
        )
    }
}

/// The table of contents that describes the sources.
pub open spec fn format_of(v: Seq<SourceView>) -> FormatView {
    FormatView { header: current_header(), files: layout(v) }
}

/// The archive: header and table of contents, then the payload.
pub open spec fn archive_of(v: Seq<SourceView>) -> Seq<u8> {
    encode_format(format_of(v)) + payload(v)
}

/// The count, each path and the combined size fit the format's integers.
pub open spec fn fits(v: Seq<SourceView>) -> bool {
    &&& v.len() <= u32::MAX
    &&& forall|i: int| 0 <= i < v.len() ==> encode_utf8(#[trigger] v[i].path).len() <= u32::MAX
    &&& total_size(v) <= u64::MAX
}

/// No two sources share a path.
pub open spec fn sources_unique(v: Seq<SourceView>) -> bool {
    forall|i: int, j: int| 0 <= i < j < v.len() ==> v[i].path != v[j].path
}

/// `p` is the path of two different sources.
pub open spec fn is_duplicate(v: Seq<SourceView>, p: Seq<char>) -> bool {
    exists|i: int, j: int| 0 <= i < j < v.len() && v[i].path == p && v[j].path == p
}

proof fn lemma_layout_len(v: Seq<SourceView>)
    ensures
        layout(v).len() == v.len(),
    decreases v.len(),
{
    if v.len() > 0 {
        lemma_layout_len(v.drop_last());
    }
}

/// The entries carry the sources' paths, in order.
pub proof fn lemma_layout_paths(v: Seq<SourceView>)
    ensures
        layout(v).len() == v.len(),
        forall|i: int| 0 <= i < v.len() ==> #[trigger] layout(v)[i].path == v[i].path,
    decreases v.len(),
{
    lemma_layout_len(v);
    if v.len() > 0 {
        lemma_layout_paths(v.drop_last());
        assert forall|i: int| 0 <= i < v.len() implies #[trigger] layout(v)[i].path == v[i].path by {
            if i < v.len() - 1 {
                assert(layout(v)[i] == layout(v.drop_last())[i]);
            }
        }
    }
}

/// A builder of archives from a source directory into an archive path.
pub struct Compiler {
    sources: String,
    binary: String,
}

impl Compiler {
    pub closed spec fn sources_path(&self) -> Seq<char> {
        self.sources@
    }

    pub closed spec fn binary_path(&self) -> Seq<char> {
        self.binary@
    }

    pub fn builder() -> (r: CompilerBuilder)
        ensures
            r.sources_path() is None,
            r.binary_path() is None,
    {
        CompilerBuilder::default()
    }

    /// The directory whose files are packed.
    pub fn sources(&self) -> (r: &str)
        ensures
            r@ == self.sources_path(),
    {
        self.sources.as_str()
    }

    /// The archive to write.
    pub fn binary(&self) -> (r: &str)
        ensures
            r@ == self.binary_path(),
    {
        self.binary.as_str()
    }

    /// The path of `source` below `base`, when `source` lies below it.
    pub fn relative_path(source: &str, base: &str) -> (r: Option<String>)
        ensures
            r is Some <==> below(source@, base@),
            r is Some ==> r->Some_0@ == source@.skip(dir_prefix(base@).len() as int),
    {
        let bl = base.unicode_len();
        let sl = source.unicode_len();
        if sl <= bl {
            return None;
        }
        let needs_sep = bl > 0 && base.get_char(bl - 1) != '/';
        let plen = if needs_sep { bl + 1 } else { bl };
        if sl == plen {
            return None;
        }
        let mut i: usize = 0;
        while i < bl
            invariant
                bl == base@.len(),
                sl == source@.len(),
                bl <= sl,
                i <= bl,
                forall|k: int| 0 <= k < i ==> source@[k] == base@[k],
            decreases bl - i,
        {
            if source.get_char(i) != base.get_char(i) {
                assert(source@.take(bl as int)[i as int] != base@[i as int]);
                return None;
            }
            i = i + 1;
        }
        if needs_sep && source.get_char(bl) != '/' {
            assert(source@.take(plen as int)[bl as int] != dir_prefix(base@)[bl as int]);
            return None;
        }
        assert(source@.take(plen as int) =~= dir_prefix(base@));
        let rest = source.substring_char(plen, sl);
        assert(rest@ =~= source@.skip(plen as int));
        Some(rest.to_owned())
    }

    /// The archive that packs `sources` in the order given: the header, one
    /// table-of-contents entry per source, then every content back to back.
    /// Fails when the format's integers cannot hold the sources, else when two
    /// share a path.
    pub fn pack(sources: &Vec<SourceFile>) -> (r: Result<Vec<u8>, CompilerError>)
        ensures
            !fits(sources_view(sources@)) ==> r is Err && r->Err_0 is ArchiveTooLarge,
            fits(sources_view(sources@)) && !sources_unique(sources_view(sources@)) ==> r is Err
                && r->Err_0 is DuplicatePath && is_duplicate(
                sources_view(sources@),
                r->Err_0->DuplicatePath_0@,
            ),
            fits(sources_view(sources@)) && sources_unique(sources_view(sources@)) ==> r is Ok
                && r->Ok_0@ == archive_of(sources_view(sources@)),
    {
        let ghost v = sources_view(sources@);
        let n = sources.len();
        if n > u32::MAX as usize {
            return Err(CompilerError::ArchiveTooLarge);
        }
        let mut format = Format::new();
        let mut offset: u64 = 0;
        let mut i: usize = 0;
        while i < n
            invariant
                n == sources@.len(),
                n <= u32::MAX,
                v == sources_view(sources@),
                i <= n,
                offset == total_size(v.take(i as int)),
                format@ == format_of(v.take(i as int)),
                forall|k: int| 0 <= k < i ==> encode_utf8(#[trigger] v[k].path).len() <= u32::MAX,
            decreases n - i,
        {
            let source = &sources[i];
            assert(v[i as int] == source@);
            assert(v.take(i + 1).drop_last() =~= v.take(i as int));
            let path_len = source.path.as_str().as_bytes().len();
            if path_len > u32::MAX as usize {
                assert(!fits(v)) by {
                    assert(encode_utf8(v[i as int].path).len() > u32::MAX);
                }
                return Err(CompilerError::ArchiveTooLarge);
            }
            assert(encode_utf8(v[i as int].path).len() == path_len);
            let size = source.content.len() as u64;
            let next = match offset.checked_add(size) {
                Some(x) => x,
                None => {
                    assert(!fits(v)) by {
                        lemma_total_size_prefix(v, i + 1);
                    }
                    return Err(CompilerError::ArchiveTooLarge);
                },
            };
            format.add_file(File::new(source.path.clone(), offset, size));
            offset = next;
            i = i + 1;
        }
        assert(v.take(n as int) =~= v);
        assert(fits(v));
        proof {
            lemma_layout_paths(v);
        }
        let mut a: usize = 0;
        while a < n
            invariant
                n == sources@.len(),
                v == sources_view(sources@),
                format@ == format_of(v),
                fits(v),
                layout(v).len() == n,
                forall|x: int| 0 <= x < n ==> #[trigger] layout(v)[x].path == v[x].path,
                a <= n,
                forall|x: int, y: int| 0 <= x < y < n && x < a ==> v[x].path != v[y].path,
            decreases n - a,
        {
            let mut b: usize = a + 1;
            while b < n
                invariant
                    n == sources@.len(),
                    v == sources_view(sources@),
                    format@ == format_of(v),
                    fits(v),
                    layout(v).len() == n,
                    forall|x: int| 0 <= x < n ==> #[trigger] layout(v)[x].path == v[x].path,
                    a < b <= n,
                    forall|x: int, y: int| 0 <= x < y < n && x < a ==> v[x].path != v[y].path,
                    forall|y: int| a < y < b ==> v[a as int].path != v[y].path,
                decreases n - b,
            {
                if format.files[a].path == format.files[b].path {
                    let dup = format.files[a].path.clone();
                    assert(is_duplicate(v, dup@)) by {
                        assert(format@.files[a as int].path == layout(v)[a as int].path);
                        assert(format@.files[b as int].path == layout(v)[b as int].path);
                    }
                    return Err(CompilerError::DuplicatePath(dup));
                }
                assert(v[a as int].path != v[b as int].path) by {
                    assert(format@.files[a as int] == format.files@[a as int]@);
                    assert(format@.files[b as int] == format.files@[b as int]@);
                    assert(layout(v)[a as int].path == v[a as int].path);
                    assert(layout(v)[b as int].path == v[b as int].path);
                    assert(format.files@[a as int].path@ != format.files@[b as int].path@);
                }
                b = b + 1;
            }
            a = a + 1;
        }
        proof {
            lemma_format_encodable(v);
        }
        let mut out: Vec<u8> = Vec::new();
        format.serialize(&mut out);
        let mut k: usize = 0;
        while k < n
            invariant
                n == sources@.len(),
                v == sources_view(sources@),
                k <= n,
                out@ == encode_format(format_of(v)) + payload(v.take(k as int)),
            decreases n - k,
        {
            crate::write::array_raw(&mut out, sources[k].content.as_slice());
            assert(v.take(k + 1).drop_last() =~= v.take(k as int));
            k = k + 1;
        }
        assert(v.take(n as int) =~= v);
        Ok(out)
    }
}

/// Sources that fit give a table of contents that can be written.
pub proof fn lemma_format_encodable(v: Seq<SourceView>)
    requires
        fits(v),
    ensures
        format_encodable(format_of(v)),
{
    lemma_constant_widths();
    lemma_layout_paths(v);
    assert forall|i: int| 0 <= i < layout(v).len() implies entry_encodable(
        #[trigger] layout(v)[i],
    ) by {
        assert(encode_utf8(v[i].path).len() <= u32::MAX);
    }
}

/// The contents of a prefix weigh no more than all of them.
pub proof fn lemma_total_size_prefix(v: Seq<SourceView>, i: int)
    requires
        0 <= i <= v.len(),
    ensures
        total_size(v.take(i)) <= total_size(v),
    decreases v.len() - i,
{
    if i < v.len() {
        lemma_total_size_prefix(v, i + 1);
        assert(v.take(i + 1).drop_last() =~= v.take(i));
    } else {
        assert(v.take(i) =~= v);
    }
}

/// The directory prefix that paths below `base` start with.
pub open spec fn dir_prefix(base: Seq<char>) -> Seq<char> {
    if base.len() == 0 || base.last() == '/' {
        base
    } else {
        base.push('/')
    }
}

/// `source` names something below `base`.
pub open spec fn below(source: Seq<char>, base: Seq<char>) -> bool {
    &&& source.len() > dir_prefix(base).len()
    &&& source.take(dir_prefix(base).len() as int) == dir_prefix(base)
}

} // verus!

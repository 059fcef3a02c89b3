//! What holds across the encoders, the decoders, the builder and the loader.
use crate::binary::BinaryError;
use crate::compiler::{
    archive_of, fits, format_of, layout, lemma_format_encodable, lemma_layout_paths, payload,
    sources_unique, total_size, SourceView,
};
use crate::file::{encode_entry, entry_encodable, parse_entry, FileView};
use crate::format::{
    encode_entries, encode_format, format_encodable, parse_entries, parse_format, unique_paths,
    FormatView,
};
use crate::header::{
    current_header, current_version, encode_header, header_encodable, parse_header,
    validate_header, HeaderView, MAGIC, PRODUCER,
};
use crate::loader::{content_of, find_entry, load_result};
use crate::read::{parse_string, parse_string_raw, parse_u32, parse_u64, parse_u8};
use vstd::bytes::{
    lemma_auto_spec_u32_to_from_le_bytes, lemma_auto_spec_u64_to_from_le_bytes,
    spec_u32_to_le_bytes, spec_u64_to_le_bytes,
};
use vstd::prelude::*;
use vstd::utf8::{decode_utf8, encode_utf8, encode_utf8_decode_utf8, encode_utf8_valid_utf8, valid_utf8};

verus! {

/// A byte decodes to itself.
pub proof fn lemma_u8_round_trip(x: u8, rest: Seq<u8>)
    ensures
        parse_u8(seq![x] + rest) == Ok::<(u8, nat), BinaryError>((x, 1)),
{
}

/// A 32-bit integer decodes from its four little-endian bytes.
pub proof fn lemma_u32_round_trip(x: u32, rest: Seq<u8>)
    ensures
        spec_u32_to_le_bytes(x).len() == 4,
        parse_u32(spec_u32_to_le_bytes(x) + rest) == Ok::<(u32, nat), BinaryError>((x, 4)),
{
    lemma_auto_spec_u32_to_from_le_bytes();
    assert((spec_u32_to_le_bytes(x) + rest).take(4) =~= spec_u32_to_le_bytes(x));
}

/// A 64-bit integer decodes from its eight little-endian bytes.
pub proof fn lemma_u64_round_trip(x: u64, rest: Seq<u8>)
    ensures
        spec_u64_to_le_bytes(x).len() == 8,
        parse_u64(spec_u64_to_le_bytes(x) + rest) == Ok::<(u64, nat), BinaryError>((x, 8)),
{
    lemma_auto_spec_u64_to_from_le_bytes();
    assert((spec_u64_to_le_bytes(x) + rest).take(8) =~= spec_u64_to_le_bytes(x));
}

/// Text decodes from its UTF-8 bytes when their count is known.
pub proof fn lemma_string_raw_round_trip(t: Seq<char>, rest: Seq<u8>)
    ensures
        parse_string_raw(encode_utf8(t) + rest, encode_utf8(t).len()) == Ok::<
            (Seq<char>, nat),
            BinaryError,
        >((t, encode_utf8(t).len())),
{
    encode_utf8_valid_utf8(t);
    encode_utf8_decode_utf8(t);
    assert((encode_utf8(t) + rest).take(encode_utf8(t).len() as int) =~= encode_utf8(t));
}

/// Text decodes from its 32-bit length and UTF-8 bytes.
pub proof fn lemma_string_round_trip(t: Seq<char>, rest: Seq<u8>)
    requires
        encode_utf8(t).len() <= u32::MAX,
    ensures
        parse_string(spec_u32_to_le_bytes(encode_utf8(t).len() as u32) + encode_utf8(t) + rest)
            == Ok::<(Seq<char>, nat), BinaryError>((t, 4 + encode_utf8(t).len())),
{
    let p = spec_u32_to_le_bytes(encode_utf8(t).len() as u32);
    let s = p + encode_utf8(t) + rest;
    lemma_u32_round_trip(encode_utf8(t).len() as u32, encode_utf8(t) + rest);
    assert(s =~= p + (encode_utf8(t) + rest));
    assert(s.skip(4) =~= encode_utf8(t) + rest);
    lemma_string_raw_round_trip(t, rest);
}

/// An entry decodes from its encoding.
pub proof fn lemma_entry_round_trip(f: FileView, rest: Seq<u8>)
    requires
        entry_encodable(f),
    ensures
        parse_entry(encode_entry(f) + rest) == Ok::<(FileView, nat), BinaryError>(
            (f, encode_entry(f).len()),
        ),
{
    let a = spec_u64_to_le_bytes(f.offset);
    let b = spec_u64_to_le_bytes(f.size);
    let c = spec_u32_to_le_bytes(encode_utf8(f.path).len() as u32) + encode_utf8(f.path);
    let s = encode_entry(f) + rest;
    lemma_u64_round_trip(f.offset, b + c + rest);
    lemma_u64_round_trip(f.size, c + rest);
    lemma_string_round_trip(f.path, rest);
    lemma_u32_round_trip(encode_utf8(f.path).len() as u32, Seq::empty());
    assert(s =~= a + (b + c + rest));
    assert(s.skip(8) =~= b + (c + rest));
    assert(s.skip(16) =~= c + rest);
}

/// A header decodes from its encoding.
pub proof fn lemma_header_round_trip(h: HeaderView, rest: Seq<u8>)
    requires
        header_encodable(h),
    ensures
        parse_header(encode_header(h) + rest) == Ok::<(HeaderView, nat), BinaryError>(
            (h, encode_header(h).len()),
        ),
{
    let m = encode_utf8(h.magic);
    let p = encode_utf8(h.producer);
    let v = seq![h.version.major, h.version.minor, h.version.patch];
    let s = encode_header(h) + rest;
    let a = m.len() as int;
    let k = a + 1 + p.len();
    assert(s =~= m + (seq![0u8] + p + v + rest));
    lemma_string_raw_round_trip(h.magic, seq![0u8] + p + v + rest);
    assert(s.skip(a) =~= seq![0u8] + (p + v + rest));
    assert(s.skip(a + 1) =~= p + (v + rest));
    lemma_string_raw_round_trip(h.producer, v + rest);
    assert(s.skip(k) =~= seq![h.version.major] + (seq![h.version.minor, h.version.patch] + rest));
    assert(s.skip(k + 1) =~= seq![h.version.minor] + (seq![h.version.patch] + rest));
    assert(s.skip(k + 2) =~= seq![h.version.patch] + rest);
}

/// A run of entries decodes from its encoding, given their count.
pub proof fn lemma_entries_round_trip(fs: Seq<FileView>, rest: Seq<u8>)
    requires
        forall|i: int| 0 <= i < fs.len() ==> entry_encodable(#[trigger] fs[i]),
    ensures
        parse_entries(encode_entries(fs) + rest, fs.len()) == Ok::<
            (Seq<FileView>, nat),
            BinaryError,
        >((fs, encode_entries(fs).len())),
    decreases fs.len(),
{
    if fs.len() > 0 {
        let init = fs.drop_last();
        let last = fs.last();
        let s = encode_entries(fs) + rest;
        assert(forall|i: int| 0 <= i < init.len() ==> init[i] == fs[i]);
        assert(s =~= encode_entries(init) + (encode_entry(last) + rest));
        lemma_entries_round_trip(init, encode_entry(last) + rest);
        assert(s.skip(encode_entries(init).len() as int) =~= encode_entry(last) + rest);
        assert(entry_encodable(fs[fs.len() - 1]));
        lemma_entry_round_trip(last, rest);
        assert(init.push(last) =~= fs);
    } else {
        assert(fs =~= Seq::<FileView>::empty());
    }
}

/// A container decodes from its encoding: what `serialize` writes,
/// `deserialize` reads back, whatever follows it.
pub proof fn lemma_format_round_trip(f: FormatView, rest: Seq<u8>)
    requires
        format_encodable(f),
    ensures
        parse_format(encode_format(f) + rest) == Ok::<(FormatView, nat), BinaryError>(
            (f, encode_format(f).len()),
        ),
{
    let h = encode_header(f.header);
    let c = spec_u32_to_le_bytes(f.files.len() as u32);
    let e = encode_entries(f.files);
    let s = encode_format(f) + rest;
    assert(s =~= h + (c + e + rest));
    lemma_header_round_trip(f.header, c + e + rest);
    assert(s.skip(h.len() as int) =~= c + (e + rest));
    lemma_u32_round_trip(f.files.len() as u32, e + rest);
    assert(s.skip(h.len() + 4 as int) =~= e + rest);
    lemma_entries_round_trip(f.files, rest);
}

/// Each entry starts where the one before it ends, the first at zero, and
/// the payload is exactly as long as the entries together.
pub proof fn lemma_tight_packing(v: Seq<SourceView>)
    requires
        fits(v),
    ensures
        layout(v).len() == v.len(),
        payload(v).len() == total_size(v),
        forall|i: int|
            0 <= i < v.len() ==> #[trigger] layout(v)[i].offset == total_size(v.take(i))
                && layout(v)[i].size == v[i].content.len(),
        v.len() > 0 ==> layout(v)[v.len() - 1].offset + layout(v)[v.len() - 1].size == payload(
            v,
        ).len(),
    decreases v.len(),
{
    if v.len() > 0 {
        let init = v.drop_last();
        assert(fits(init)) by {
            lemma_total_size_drop_last(v);
            assert forall|i: int| 0 <= i < init.len() implies encode_utf8(
                #[trigger] init[i].path,
            ).len() <= u32::MAX by {
                assert(init[i] == v[i]);
            }
        }
        lemma_tight_packing(init);
        assert forall|i: int| 0 <= i < v.len() implies #[trigger] layout(v)[i].offset == total_size(
            v.take(i),
        ) && layout(v)[i].size == v[i].content.len() by {
            if i < v.len() - 1 {
                assert(layout(v)[i] == layout(init)[i]);
                assert(init.take(i) =~= v.take(i));
                assert(init[i] == v[i]);
            } else {
                assert(v.take(i) =~= init);
            }
        }
    }
}

proof fn lemma_total_size_drop_last(v: Seq<SourceView>)
    requires
        v.len() > 0,
    ensures
        total_size(v.drop_last()) <= total_size(v),
{
}

/// The content of each source lies in the payload at its entry's place.
pub proof fn lemma_payload_slices(v: Seq<SourceView>, i: int)
    requires
        fits(v),
        0 <= i < v.len(),
    ensures
        payload(v).subrange(
            layout(v)[i].offset as int,
            layout(v)[i].offset + layout(v)[i].size,
        ) == v[i].content,
    decreases v.len(),
{
    lemma_tight_packing(v);
    let init = v.drop_last();
    if i < v.len() - 1 {
        assert(fits(init)) by {
            lemma_total_size_drop_last(v);
            assert forall|k: int| 0 <= k < init.len() implies encode_utf8(
                #[trigger] init[k].path,
            ).len() <= u32::MAX by {
                assert(init[k] == v[k]);
            }
        }
        lemma_payload_slices(init, i);
        lemma_tight_packing(init);
        lemma_total_size_prefix_of(init, i);
        assert(layout(v)[i] == layout(init)[i]);
        assert(init[i] == v[i]);
        assert(payload(v).subrange(layout(v)[i].offset as int, layout(v)[i].offset + layout(v)[i].size)
            =~= payload(init).subrange(layout(v)[i].offset as int, layout(v)[i].offset + layout(v)[i].size));
    } else {
        assert(v.take(i) =~= init);
        assert(payload(v).subrange(layout(v)[i].offset as int, layout(v)[i].offset + layout(v)[i].size)
            =~= v[i].content);
    }
}

/// Packing sources with distinct paths and loading the result succeeds, and
/// for every source the loader finds its entry, whose bytes in the archive
/// are exactly the source's content.
pub proof fn lemma_round_trip(v: Seq<SourceView>)
    requires
        fits(v),
        sources_unique(v),
    ensures
        load_result(archive_of(v)) == Ok::<(FormatView, nat), BinaryError>(
            (format_of(v), encode_format(format_of(v)).len()),
        ),
        forall|i: int|
            0 <= i < v.len() ==> #[trigger] find_entry(layout(v), v[i].path) == Some(layout(v)[i])
                && content_of(archive_of(v), encode_format(format_of(v)).len(), layout(v)[i]) == Some(
                v[i].content,
            ),
{
    let f = format_of(v);
    let n = encode_format(f).len();
    lemma_format_encodable(v);
    lemma_format_round_trip(f, payload(v));
    lemma_layout_paths(v);
    lemma_tight_packing(v);
    assert(unique_paths(layout(v)));
    assert(validate_header(current_header()) == Ok::<(), BinaryError>(()));
    assert forall|i: int| 0 <= i < v.len() implies #[trigger] find_entry(layout(v), v[i].path)
        == Some(layout(v)[i]) && content_of(archive_of(v), n, layout(v)[i]) == Some(
        v[i].content,
    ) by {
        let fs = layout(v);
        assert(fs[i].path == v[i].path);
        let c = choose|k: int| 0 <= k < fs.len() && fs[k].path == v[i].path;
        if c != i {
            if c < i {
                assert(fs[c].path != fs[i].path);
            } else {
                assert(fs[i].path != fs[c].path);
            }
        }
        lemma_payload_slices(v, i);
        lemma_total_size_prefix_of(v, i);
        let e = fs[i];
        assert(archive_of(v).subrange(n + e.offset, n + e.offset + e.size) =~= payload(v).subrange(
            e.offset as int,
            e.offset + e.size,
        ));
    }
}

proof fn lemma_total_size_prefix_of(v: Seq<SourceView>, i: int)
    requires
        fits(v),
        0 <= i < v.len(),
    ensures
        layout(v)[i].offset + layout(v)[i].size <= payload(v).len(),
{
    lemma_tight_packing(v);
    crate::compiler::lemma_total_size_prefix(v, i + 1);
    assert(v.take(i + 1).drop_last() =~= v.take(i));
}

/// Text packed as UTF-8 reads back as the same text.
pub proof fn lemma_text_round_trip(v: Seq<SourceView>, i: int, text: Seq<char>)
    requires
        fits(v),
        sources_unique(v),
        0 <= i < v.len(),
        v[i].content == encode_utf8(text),
    ensures
        content_of(archive_of(v), encode_format(format_of(v)).len(), layout(v)[i]) == Some(
            encode_utf8(text),
        ),
        valid_utf8(encode_utf8(text)),
        decode_utf8(encode_utf8(text)) == text,
{
    lemma_round_trip(v);
    assert(find_entry(layout(v), v[i].path) == Some(layout(v)[i]));
    encode_utf8_valid_utf8(text);
    encode_utf8_decode_utf8(text);
}

/// An archive of this producer whose version differs from this library's is
/// refused for its version, never as malformed.
pub proof fn lemma_version_gate(f: FormatView, rest: Seq<u8>)
    requires
        format_encodable(f),
        f.header.magic == MAGIC@,
        f.header.producer == PRODUCER@,
        f.header.version != current_version(),
    ensures
        load_result(encode_format(f) + rest) == Err::<(FormatView, nat), BinaryError>(
            BinaryError::IncorrectVersion { expected: current_version(), found: f.header.version },
        ),
{
    lemma_format_round_trip(f, rest);
}

} // verus!

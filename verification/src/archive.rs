//! The archive writer: packs a list of save files into a single
//! compressed 7z container, preserving each file's POSIX-style relative
//! path, and reads such a container back.
//!
//! The 7z encoding itself is done by the `sevenz_rust` crate behind
//! trusted contracts. The bytes an archive finishes to are a function of
//! the pushed entries alone (fixed LZMA2 settings, no timestamps), named
//! `sz_pack`; reading an archive back yields exactly the entries it was
//! written with. The extraction contract pins the multiset of entries —
//! in fact this writer gives every entry a stream and the reader visits
//! them in order, so the claim is deliberately weaker than the truth.
//!
//! Entry names must not contain the NUL character: the format stores
//! names NUL-terminated, so a NUL inside a name desynchronizes the name
//! table on reading. No real filesystem allows NUL in a file name, and
//! the contracts exclude it.

use vstd::prelude::*;
use crate::textutil::string_from_chars;

verus! {

/// The 7z encoder's error type, carried through trusted results.
#[verifier::external_type_specification]
#[verifier::external_body]
pub struct ExSevenZError(sevenz_rust::Error);

/// An in-progress 7z archive accumulating entries in memory. The writer
/// type's `Write` bound keeps it from being declared to the verifier
/// directly, so it sits opaque in this holder; `sz_entries` names what
/// it holds.
#[verifier::external_body]
pub struct ArchiveBuilder {
    inner: sevenz_rust::SevenZWriter<std::io::Cursor<Vec<u8>>>,
}

/// One file inside an archive: its archive-internal name (forward-slash
/// relative path) and its byte content.
#[derive(Debug)]
pub struct ArchiveEntry {
    pub name: String,
    pub data: Vec<u8>,
}

impl View for ArchiveEntry {
    type V = (Seq<char>, Seq<u8>);

    open spec fn view(&self) -> (Seq<char>, Seq<u8>) {
        (self.name@, self.data@)
    }
}

/// The views of a run of entries.
pub open spec fn entry_views(s: Seq<ArchiveEntry>) -> Seq<(Seq<char>, Seq<u8>)> {
    s.map_values(|e: ArchiveEntry| e@)
}

/// Whether a name is free of the NUL character, which the 7z name
/// table cannot carry.
pub open spec fn no_nul(s: Seq<char>) -> bool {
    forall|i: int| 0 <= i < s.len() ==> (#[trigger] s[i]) != '\u{0000}'
}

/// Every entry name free of NUL.
pub open spec fn wf_entry_names(es: Seq<(Seq<char>, Seq<u8>)>) -> bool {
    forall|k: int| 0 <= k < es.len() ==> no_nul((#[trigger] es[k]).0)
}

/// Every path segment of every source file free of NUL.
pub open spec fn wf_source_names(files: Seq<(Seq<Seq<char>>, Seq<u8>)>) -> bool {
    forall|k: int, j: int|
        0 <= k < files.len() && 0 <= j < files[k].0.len() ==> no_nul(#[trigger] files[k].0[j])
}

/// The entries pushed so far into an in-progress archive.
pub uninterp spec fn sz_entries(w: ArchiveBuilder) -> Seq<(Seq<char>, Seq<u8>)>;

/// The bytes a finished archive of the given entries consists of.
pub uninterp spec fn sz_pack(entries: Seq<(Seq<char>, Seq<u8>)>) -> Seq<u8>;

/// Relies on `sevenz_rust::SevenZWriter::new` over a fresh in-memory
/// cursor: a newly prepared archive holds no entries, and preparing it
/// cannot fail — the only fallible step is a seek on the cursor, which
/// always succeeds.
#[verifier::external_body]
fn sz_writer_new() -> (r: Result<ArchiveBuilder, sevenz_rust::Error>)
    ensures
        r is Ok,
        r matches Ok(w) ==> sz_entries(w) == Seq::<(Seq<char>, Seq<u8>)>::empty(),
{
    let inner = sevenz_rust::SevenZWriter::new(std::io::Cursor::new(Vec::new()))?;
    Ok(ArchiveBuilder { inner })
}

/// Relies on `sevenz_rust::SevenZWriter::push_archive_entry`: the
/// archive gains exactly the named entry with the given content. The
/// push cannot fail: the content is read from an in-memory slice and
/// encoded into the in-memory cursor, and every error path of the
/// encoder only propagates a sink or source failure.
#[verifier::external_body]
fn sz_push(w: &mut ArchiveBuilder, name: &String, data: &Vec<u8>) -> (r: Result<
    (),
    sevenz_rust::Error,
>)
    ensures
        r is Ok,
        sz_entries(*final(w)) == sz_entries(*old(w)).push((name@, data@)),
{
    let mut entry = sevenz_rust::SevenZArchiveEntry::new();
    entry.name = name.clone();
    w.inner.push_archive_entry(entry, Some(std::io::Cursor::new(data.as_slice()))).map(|_| ())
}

/// Relies on `sevenz_rust::SevenZWriter::finish`: the header and packed
/// streams are written out; with the writer's fixed default settings and
/// no per-entry metadata, the bytes depend on the entries alone. The
/// write goes to the in-memory cursor, so it cannot fail, and every
/// container starts with the format's 32-byte signature header.
#[verifier::external_body]
fn sz_finish(w: ArchiveBuilder) -> (r: Result<Vec<u8>, sevenz_rust::Error>)
    ensures
        r is Ok,
        r matches Ok(bytes) ==> bytes@ == sz_pack(sz_entries(w)) && bytes@.len() >= 32,
{
    match w.inner.finish() {
        Ok(cursor) => Ok(cursor.into_inner()),
        Err(e) => Err(sevenz_rust::Error::from(e)),
    }
}

/// Relies on `sevenz_rust::SevenZReader::new` and `for_each_entries`:
/// an archive this crate's writer produced from NUL-free names decodes,
/// without failing, to the entries it was written with. The
/// precondition limits the input to such archives: on crafted headers
/// the decoder indexes fixed-size tables with unvalidated fields and
/// can panic, and a NUL inside a stored name splits the name table and
/// drives the reader's file index out of bounds, so neither arbitrary
/// bytes nor NUL-bearing names are admitted.
#[verifier::external_body]
fn sz_extract(bytes: &Vec<u8>) -> (r: Result<Vec<ArchiveEntry>, sevenz_rust::Error>)
    requires
        exists|es: Seq<(Seq<char>, Seq<u8>)>| bytes@ == sz_pack(es) && wf_entry_names(es),
    ensures
        r is Ok,
        r matches Ok(v) ==> forall|es: Seq<(Seq<char>, Seq<u8>)>|
            bytes@ == sz_pack(es) ==> entry_views(v@).to_multiset() == es.to_multiset(),
{
    let len = bytes.len() as u64;
    let cursor = std::io::Cursor::new(bytes.as_slice());
    let mut rd = sevenz_rust::SevenZReader::new(cursor, len, sevenz_rust::Password::empty())?;
    let mut out: Vec<ArchiveEntry> = Vec::new();
    rd.for_each_entries(|e, r| {
        let mut data: Vec<u8> = Vec::new();
        std::io::Read::read_to_end(r, &mut data)?;
        if !e.is_directory {
            out.push(ArchiveEntry { name: e.name.clone(), data });
        }
        Ok(true)
    })?;
    Ok(out)
}

/// One regular file under the source directory: the path segments from
/// the source root down to the file, and its content.
#[derive(Debug)]
pub struct SourceFile {
    pub rel_segments: Vec<String>,
    pub data: Vec<u8>,
}

impl View for SourceFile {
    type V = (Seq<Seq<char>>, Seq<u8>);

    open spec fn view(&self) -> (Seq<Seq<char>>, Seq<u8>) {
        (self.rel_segments@.map_values(|s: String| s@), self.data@)
    }
}

/// Path segments joined with forward slashes, the archive-internal name
/// of a file.
pub open spec fn joined_name(segs: Seq<Seq<char>>) -> Seq<char>
    decreases segs.len(),
{
    if segs.len() == 0 {
        Seq::<char>::empty()
    } else if segs.len() == 1 {
        segs[0]
    } else {
        joined_name(segs.drop_last()) + seq!['/'] + segs.last()
    }
}

/// The archive entries a run of source files flattens to.
pub open spec fn entries_of(files: Seq<(Seq<Seq<char>>, Seq<u8>)>) -> Seq<(Seq<char>, Seq<u8>)> {
    files.map_values(|f: (Seq<Seq<char>>, Seq<u8>)| (joined_name(f.0), f.1))
}

/// The POSIX-style relative path of a file, segments joined with `/`.
pub fn rel_path_name(segs: &Vec<String>) -> (r: String)
    ensures
        r@ == joined_name(segs@.map_values(|s: String| s@)),
{
    let ghost segviews = segs@.map_values(|s: String| s@);
    let mut out: Vec<char> = Vec::new();
    let mut i: usize = 0;
    while i < segs.len()
        invariant
            i <= segs@.len(),
            segviews == segs@.map_values(|s: String| s@),
            out@ == joined_name(segviews.take(i as int)),
        decreases segs@.len() - i,
    {
        if i > 0 {
            out.push('/');
        }
        let cs = crate::textutil::str_chars(segs[i].as_str());
        let mut j: usize = 0;
        while j < cs.len()
            invariant
                j <= cs@.len(),
                cs@ == segviews[i as int],
                i < segviews.len(),
                i == 0 ==> out@ == cs@.take(j as int),
                i > 0 ==> out@ == joined_name(segviews.take(i as int)) + seq!['/'] + cs@.take(
                    j as int,
                ),
            decreases cs@.len() - j,
        {
            out.push(cs[j]);
            j = j + 1;
            assert(cs@.take(j as int) =~= cs@.take(j - 1 as int).push(cs@[j - 1]));
        }
        proof {
            assert(cs@.take(cs@.len() as int) =~= cs@);
            assert(segviews.take(i + 1 as int).drop_last() =~= segviews.take(i as int));
            assert(segviews.take(i + 1 as int).last() == segviews[i as int]);
            if i == 0 {
                assert(joined_name(segviews.take(1int)) == segviews[0int]);
            }
        }
        i = i + 1;
    }
    proof {
        assert(segviews.take(segviews.len() as int) =~= segviews);
    }
    string_from_chars(&out)
}

/// A name joined from NUL-free segments is NUL-free: the joiner only
/// adds slashes.
proof fn lemma_joined_name_no_nul(segs: Seq<Seq<char>>)
    requires
        forall|j: int| 0 <= j < segs.len() ==> no_nul(#[trigger] segs[j]),
    ensures
        no_nul(joined_name(segs)),
    decreases segs.len(),
{
    if segs.len() <= 1 {
    } else {
        assert forall|j: int| 0 <= j < segs.drop_last().len() implies no_nul(
            #[trigger] segs.drop_last()[j],
        ) by {
            assert(segs.drop_last()[j] == segs[j]);
        }
        lemma_joined_name_no_nul(segs.drop_last());
        let a = joined_name(segs.drop_last());
        let w = joined_name(segs);
        assert(w == a + seq!['/'] + segs.last());
        assert forall|i: int| 0 <= i < w.len() implies (#[trigger] w[i]) != '\u{0000}' by {
            if i < a.len() {
                assert(w[i] == a[i]);
            } else if i == a.len() {
                assert(w[i] == '/');
            } else {
                assert(w[i] == segs.last()[i - a.len() - 1]);
                assert(no_nul(segs[segs.len() - 1]));
            }
        }
    }
}

/// Flattens source files into archive entries: each file appears once,
/// in listing order, under its forward-slash relative path.
pub fn to_archive_entries(files: &Vec<SourceFile>) -> (r: Vec<ArchiveEntry>)
    ensures
        entry_views(r@) == entries_of(files@.map_values(|f: SourceFile| f@)),
        wf_source_names(files@.map_values(|f: SourceFile| f@)) ==> wf_entry_names(
            entry_views(r@),
        ),
{
    let ghost fviews = files@.map_values(|f: SourceFile| f@);
    let mut r: Vec<ArchiveEntry> = Vec::new();
    let mut i: usize = 0;
    while i < files.len()
        invariant
            i <= files@.len(),
            fviews == files@.map_values(|f: SourceFile| f@),
            entry_views(r@) == entries_of(fviews.take(i as int)),
        decreases files@.len() - i,
    {
        let name = rel_path_name(&files[i].rel_segments);
        let data = clone_bytes(&files[i].data);
        let ghost prev = r@;
        r.push(ArchiveEntry { name, data });
        i = i + 1;
        proof {
            let k = (i - 1) as int;
            assert(fviews[k] == files@[k]@);
            assert(r@.last()@ == (joined_name(fviews[k].0), fviews[k].1));
            assert(entry_views(r@) =~= entry_views(prev).push(r@.last()@));
            assert(entries_of(fviews.take(i as int)) =~= entries_of(fviews.take(k)).push(
                (joined_name(fviews[k].0), fviews[k].1),
            ));
        }
    }
    proof {
        assert(fviews.take(fviews.len() as int) =~= fviews);
        if wf_source_names(fviews) {
            assert forall|k: int| 0 <= k < entry_views(r@).len() implies no_nul(
                (#[trigger] entry_views(r@)[k]).0,
            ) by {
                assert(entry_views(r@)[k] == (joined_name(fviews[k].0), fviews[k].1));
                assert forall|j: int| 0 <= j < fviews[k].0.len() implies no_nul(
                    #[trigger] fviews[k].0[j],
                ) by {}
                lemma_joined_name_no_nul(fviews[k].0);
            }
        }
    }
    r
}

/// A copy of a byte vector.
fn clone_bytes(v: &Vec<u8>) -> (r: Vec<u8>)
    ensures
        r@ == v@,
{
    let mut r: Vec<u8> = Vec::new();
    let mut i: usize = 0;
    while i < v.len()
        invariant
            i <= v@.len(),
            r@ == v@.take(i as int),
        decreases v@.len() - i,
    {
        r.push(v[i]);
        i = i + 1;
        assert(r@ =~= v@.take(i as int));
    }
    assert(v@.take(v@.len() as int) =~= v@);
    r
}

/// Packs the given entries into a complete 7z container held in memory:
/// exactly the packing of the entries, in order, never empty. The
/// encoding is in-memory end to end, so it cannot fail.
pub fn write_archive(entries: &Vec<ArchiveEntry>) -> (r: Vec<u8>)
    ensures
        r@ == sz_pack(entry_views(entries@)),
        r@.len() >= 32,
{
    let mut w = sz_writer_new().unwrap();
    let mut i: usize = 0;
    while i < entries.len()
        invariant
            i <= entries@.len(),
            sz_entries(w) == entry_views(entries@.take(i as int)),
        decreases entries@.len() - i,
    {
        let _ = sz_push(&mut w, &entries[i].name, &entries[i].data);
        i = i + 1;
        proof {
            assert(entry_views(entries@.take(i as int)) =~= entry_views(
                entries@.take(i - 1 as int),
            ).push(entries@[i - 1]@));
        }
    }
    proof {
        assert(entry_views(entries@.take(entries@.len() as int)) =~= entry_views(entries@));
    }
    sz_finish(w).unwrap()
}

/// Reads a 7z container produced by `write_archive` back into its
/// entries: exactly the entries it was packed from, as a multiset. The
/// precondition asks for a container packed from NUL-free names — the
/// decoder is not hardened against crafted headers or NUL-bearing
/// names, so other bytes are not admitted; `archive_then_extract` is
/// the entry whose precondition speaks only of the source listing.
pub fn read_archive(bytes: &Vec<u8>) -> (r: Vec<ArchiveEntry>)
    requires
        exists|es: Seq<(Seq<char>, Seq<u8>)>| bytes@ == sz_pack(es) && wf_entry_names(es),
    ensures
        forall|es: Seq<(Seq<char>, Seq<u8>)>|
            bytes@ == sz_pack(es) ==> entry_views(r@).to_multiset() == es.to_multiset(),
{
    sz_extract(bytes).unwrap()
}

/// Packing a directory listing and reading it straight back yields the
/// listing itself: for every run of source files with NUL-free names —
/// all names a real filesystem can produce — the extracted entries are
/// exactly the files' relative paths with their byte contents, nothing
/// lost and nothing added. The bytes handed to `read_archive` are a
/// packing of NUL-free names by construction.
pub fn archive_then_extract(files: &Vec<SourceFile>) -> (r: Vec<ArchiveEntry>)
    requires
        wf_source_names(files@.map_values(|f: SourceFile| f@)),
    ensures
        entry_views(r@).to_multiset() == entries_of(
            files@.map_values(|f: SourceFile| f@),
        ).to_multiset(),
{
    let entries = to_archive_entries(files);
    let bytes = write_archive(&entries);
    proof {
        assert(bytes@ == sz_pack(entry_views(entries@)) && wf_entry_names(entry_views(entries@)));
    }
    read_archive(&bytes)
}

} // verus!

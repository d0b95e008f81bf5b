//! Unpacking a repo snapshot: a gzipped tarball, as GitHub serves a branch,
//! whose entries sit under one top-level `<org>-<repo>-<sha7>/` directory
//! that is stripped.

use std::io::Read;
use vstd::prelude::*;
use vstd::string::*;

use crate::keyed::{lemma_insert_at, lemma_update_at, lookup, names_of};
use crate::run::strs;
use crate::strset::ascending;
use crate::text::{chars_join, chars_lt, chars_of, join, lemma_seq_lt_total, seq_lt, str_eq, string_of, views};

verus! {

broadcast use vstd::string::group_string_axioms;

/// One entry of a tar archive as the archive reader gives it: whether it is
/// a regular file, its path's components as text, and its bytes (only read
/// for a file).
#[derive(Debug, Clone)]
pub struct TarEntry {
    pub is_file: bool,
    pub path: Vec<String>,
    pub content: Vec<u8>,
}

pub open spec fn entry_view(e: TarEntry) -> (bool, Seq<Seq<char>>, Seq<u8>) {
    (e.is_file, strs(e.path@), e.content@)
}

/// What the `tar` reader over a `flate2` gzip decoder makes of `gzipped`:
/// its entries in archive order, or the message of the first error met.
pub uninterp spec fn tar_gz_listing(gzipped: Seq<u8>) -> Result<Seq<(bool, Seq<Seq<char>>, Seq<u8>)>, Seq<char>>;

/// `tar::Archive::entries` over `flate2::read::GzDecoder`: each entry's type,
/// path components (`Path::components`, lossily as text) and content
/// (`read_to_end`), read only for regular files. The listing is named, not
/// spelled out: gzip and tar framing are the outside crates' business.
#[verifier::external_body]
fn read_tar_gz(gzipped: &[u8]) -> (r: Result<Vec<TarEntry>, String>)
    ensures
        match r {
            Ok(v) => tar_gz_listing(gzipped@) == Ok::<Seq<(bool, Seq<Seq<char>>, Seq<u8>)>, Seq<char>>(
                v@.map_values(|e: TarEntry| entry_view(e)),
            ),
            Err(m) => tar_gz_listing(gzipped@) == Err::<Seq<(bool, Seq<Seq<char>>, Seq<u8>)>, Seq<char>>(m@),
        },
{
    let io = |x: std::io::Error| x.to_string();
    let mut archive = tar::Archive::new(flate2::read::GzDecoder::new(gzipped));
    let mut out = Vec::new();
    for entry in archive.entries().map_err(io)? {
        let mut entry = entry.map_err(io)?;
        let is_file = entry.header().entry_type().is_file();
        let (mut path, mut content) = (Vec::new(), Vec::new());
        if is_file {
            path = entry.path().map_err(io)?.components().map(|c| c.as_os_str().to_string_lossy().into_owned()).collect();
            entry.read_to_end(&mut content).map_err(io)?;
        }
        out.push(TarEntry { is_file, path, content });
    }
    Ok(out)
}

/// Where a file lands: its path without the top-level directory.
pub open spec fn stripped(path: Seq<Seq<char>>) -> Seq<char> {
    if path.len() <= 1 {
        Seq::empty()
    } else {
        join(path.skip(1), "/"@)
    }
}

/// The files of a listing by stripped path; a later entry at the same path
/// replaces an earlier one, and entries that are not files, or that are the
/// top-level directory itself, are skipped.
pub open spec fn unpacked(entries: Seq<(bool, Seq<Seq<char>>, Seq<u8>)>) -> Map<Seq<char>, Seq<u8>>
    decreases entries.len(),
{
    if entries.len() == 0 {
        Map::empty()
    } else {
        let m = unpacked(entries.drop_last());
        let e = entries.last();
        if e.0 && stripped(e.1).len() > 0 {
            m.insert(stripped(e.1), e.2)
        } else {
            m
        }
    }
}

pub open spec fn files_view(files: Seq<(String, Vec<u8>)>) -> Seq<(Seq<char>, Seq<u8>)> {
    files.map_values(|p: (String, Vec<u8>)| (p.0@, p.1@))
}

/// `m` looked up as an `Option`.
pub open spec fn map_get(m: Map<Seq<char>, Seq<u8>>, k: Seq<char>) -> Option<Seq<u8>> {
    if m.dom().contains(k) {
        Some(m[k])
    } else {
        None
    }
}

fn sorts_before(files: &Vec<(String, Vec<u8>)>, i: usize, key: &Vec<char>) -> (b: bool)
    requires
        i < files.len(),
    ensures
        b == seq_lt(files@[i as int].0@, key@),
{
    chars_lt(&chars_of(files[i].0.as_str()), key)
}

/// Put `content` at `name`, replacing what was there.
fn put(files: &mut Vec<(String, Vec<u8>)>, name: String, content: Vec<u8>)
    requires
        ascending(names_of(files_view(old(files)@))),
    ensures
        ascending(names_of(files_view(final(files)@))),
        forall|k: Seq<char>| #[trigger] lookup(files_view(final(files)@), k) == if k == name@ {
            Some(content@)
        } else {
            lookup(files_view(old(files)@), k)
        },
{
    let key = chars_of(name.as_str());
    let mut i: usize = 0;
    while i < files.len() && sorts_before(files, i, &key)
        invariant
            i <= files.len(),
            key@ == name@,
            forall|k: int| 0 <= k < i ==> seq_lt(#[trigger] files@[k].0@, name@),
        decreases files.len() - i,
    {
        i = i + 1;
    }
    let ghost e = files_view(files@);
    let ghost cv = content@;
    if i < files.len() && str_eq(files[i].0.as_str(), name.as_str()) {
        proof {
            lemma_update_at(e, i as int, cv);
        }
        let _old = files.remove(i);
        files.insert(i, (name, content));
        assert(files_view(files@) =~= e.update(i as int, (e[i as int].0, cv)));
    } else {
        proof {
            if i < files.len() {
                assert(!seq_lt(e[i as int].0, name@));
                lemma_seq_lt_total(e[i as int].0, name@);
            }
            assert forall|k: int| 0 <= k < i implies seq_lt(#[trigger] e[k].0, name@) by {
                assert(e[k].0 == files@[k].0@);
            }
            lemma_insert_at(e, i as int, name@, cv);
        }
        let ghost nv = name@;
        files.insert(i, (name, content));
        assert(files_view(files@) =~= e.insert(i as int, (nv, cv)));
    }
}

/// The stripped path of an entry's components.
fn stripped_exec(path: &Vec<String>) -> (r: String)
    ensures
        r@ == stripped(strs(path@)),
{
    if path.len() <= 1 {
        return String::new();
    }
    let mut parts: Vec<Vec<char>> = Vec::new();
    let mut i: usize = 1;
    let ghost skipped = strs(path@).skip(1);
    assert(views(parts@) =~= strs(path@).subrange(1, 1));
    while i < path.len()
        invariant
            1 <= i <= path.len(),
            views(parts@) == strs(path@).subrange(1, i as int),
            skipped == strs(path@).skip(1),
        decreases path.len() - i,
    {
        let ghost before = views(parts@);
        parts.push(chars_of(path[i].as_str()));
        assert(views(parts@) =~= before.push(path@[i as int]@));
        assert(strs(path@).subrange(1, i + 1) =~= strs(path@).subrange(1, i as int).push(path@[i as int]@));
        i = i + 1;
    }
    assert(strs(path@).subrange(1, path.len() as int) =~= skipped);
    proof {
        reveal_strlit("/");
    }
    let sep = chars_of("/");
    string_of(&chars_join(&parts, &sep))
}

/// The files of a tarball's entries by path (the top-level directory
/// stripped), in ascending path order: only regular files count, the
/// top-level directory itself is skipped, and where two entries share a path
/// the later one wins.
pub fn unpack(entries: &[TarEntry]) -> (files: Vec<(String, Vec<u8>)>)
    ensures
        ascending(names_of(files_view(files@))),
        forall|k: Seq<char>| #[trigger] lookup(files_view(files@), k) == map_get(
            unpacked(entries@.map_values(|e: TarEntry| entry_view(e))),
            k,
        ),
{
    let ghost all = entries@.map_values(|e: TarEntry| entry_view(e));
    let mut files: Vec<(String, Vec<u8>)> = Vec::new();
    let mut i: usize = 0;
    assert(names_of(files_view(files@)) =~= Seq::<Seq<char>>::empty());
    assert(all.take(0) =~= Seq::<(bool, Seq<Seq<char>>, Seq<u8>)>::empty());
    while i < entries.len()
        invariant
            i <= entries.len(),
            all == entries@.map_values(|e: TarEntry| entry_view(e)),
            ascending(names_of(files_view(files@))),
            forall|k: Seq<char>| #[trigger] lookup(files_view(files@), k) == map_get(unpacked(all.take(i as int)), k),
        decreases entries.len() - i,
    {
        let e = &entries[i];
        let ghost t = all.take(i + 1);
        assert(t.drop_last() =~= all.take(i as int));
        assert(t.last() == entry_view(*e));
        if e.is_file {
            let name = stripped_exec(&e.path);
            if name.as_str().unicode_len() > 0 {
                put(&mut files, name, e.content.clone());
                assert forall|k: Seq<char>| #[trigger] lookup(files_view(files@), k) == map_get(unpacked(t), k) by {
                    assert(unpacked(t) == unpacked(all.take(i as int)).insert(stripped(strs(e.path@)), e.content@));
                }
            } else {
                assert(unpacked(t) == unpacked(all.take(i as int)));
            }
        } else {
            assert(unpacked(t) == unpacked(all.take(i as int)));
        }
        i = i + 1;
    }
    assert(all.take(entries.len() as int) =~= all);
    files
}

/// Unpack a gzipped snapshot tarball into its files by path (the top-level
/// directory stripped), in ascending path order; where two entries share a
/// path, the later one wins. A tarball the reader cannot read is that error.
pub fn untar(gzipped: &[u8]) -> (r: Result<Vec<(String, Vec<u8>)>, String>)
    ensures
        match (r, tar_gz_listing(gzipped@)) {
            (Ok(files), Ok(entries)) => {
                &&& ascending(names_of(files_view(files@)))
                &&& forall|k: Seq<char>| #[trigger] lookup(files_view(files@), k) == map_get(unpacked(entries), k)
            },
            (Err(m), Err(msg)) => m@ == msg,
            _ => false,
        },
{
    match read_tar_gz(gzipped) {
        Ok(entries) => Ok(unpack(entries.as_slice())),
        Err(m) => Err(m),
    }
}

} // verus!

//! The local package cache: file locations, ranged downloads, and which
//! cached archives are evicted when the cache is over its quota.

use vstd::prelude::*;
use crate::hypervisor::image::{join_path, path_join};
use crate::order::{lemma_insert_by_at, stable_sorted_by};
use crate::text::{chars_from, chars_of, concat_str, string_from_chars, str_eq};

verus! {

/// Size of one ranged download request, in bytes (8 MiB).
pub const CHUNK_SIZE: u64 = 8388608;
/// How long a presigned download URL stays valid, in seconds.
pub const PRESIGN_EXPIRY_SECS: u64 = 3600;

/// The cache directory next to the executable: `{dir}/hdata/package_cache`.
pub fn cache_dir(exe_dir: &str) -> (p: String)
    ensures
        p@ == path_join(path_join(exe_dir@, "hdata"@), "package_cache"@),
{
    let d = join_path(exe_dir, "hdata");
    join_path(d.as_str(), "package_cache")
}

/// A cached package archive: `{cache}/{id}.tar`.
pub fn tar_path(cache: &str, id: &str) -> (p: String)
    ensures
        p@ == path_join(cache@, id@ + ".tar"@),
{
    let name = concat_str(id, ".tar");
    join_path(cache, name.as_str())
}

/// A download in progress: `{cache}/{id}.tar.tmp`.
pub fn tmp_path(cache: &str, id: &str) -> (p: String)
    ensures
        p@ == path_join(cache@, id@ + ".tar.tmp"@),
{
    let name = concat_str(id, ".tar.tmp");
    join_path(cache, name.as_str())
}

/// The object-store key of a package: `{id}.tar`.
pub fn object_key(id: &str) -> (k: String)
    ensures
        k@ == id@ + ".tar"@,
{
    concat_str(id, ".tar")
}

/// The index of the last `.` in a name, if any.
pub open spec fn last_dot(name: Seq<char>) -> Option<int>
    decreases name.len(),
{
    if name.len() == 0 {
        None
    } else if name.last() == '.' {
        Some(name.len() - 1)
    } else {
        last_dot(name.drop_last())
    }
}

/// The extension of a file name as `Path::extension` finds it: the text
/// after the last `.`, unless there is none, the only dot starts the
/// name, or the name is `..`.
pub open spec fn extension_of(name: Seq<char>) -> Option<Seq<char>> {
    if name == ".."@ {
        None
    } else {
        match last_dot(name) {
            None => None,
            Some(i) => if i == 0 {
                None
            } else {
                Some(name.subrange(i + 1, name.len() as int))
            },
        }
    }
}

/// The extension of a file name.
pub fn file_extension(name: &str) -> (r: Option<String>)
    ensures
        crate::api::apps::opt_view(r) == extension_of(name@),
{
    if str_eq(name, "..") {
        return None;
    }
    let c = chars_of(name);
    let mut i: usize = c.len();
    proof {
        assert(c@.subrange(0, c@.len() as int) =~= c@);
    }
    while i > 0 && c[i - 1] != '.'
        invariant
            c@ == name@,
            i <= c@.len(),
            last_dot(c@) == last_dot(c@.subrange(0, i as int)),
        decreases i,
    {
        proof {
            assert(c@.subrange(0, i as int).drop_last() =~= c@.subrange(0, i - 1));
        }
        i = i - 1;
    }
    if i == 0 {
        proof {
            assert(c@.subrange(0, 0) =~= Seq::<char>::empty());
        }
        return None;
    }
    proof {
        assert(c@.subrange(0, i as int).last() == '.');
    }
    if i == 1 {
        None
    } else {
        let rest = chars_from(&c, i);
        Some(string_from_chars(&rest))
    }
}

/// The byte ranges of a ranged download of `total` bytes: consecutive
/// inclusive ranges of `CHUNK_SIZE` bytes, the last one shorter.
pub open spec fn byte_ranges(start: nat, total: nat) -> Seq<(u64, u64)>
    decreases total - start,
{
    if start >= total {
        Seq::empty()
    } else {
        let end = if start + CHUNK_SIZE - 1 < total - 1 {
            start + CHUNK_SIZE - 1
        } else {
            total - 1
        };
        seq![(start as u64, end as u64)] + byte_ranges((end + 1) as nat, total)
    }
}

/// The ranges to request for a download of `total` bytes.
pub fn download_ranges(total: u64) -> (r: Vec<(u64, u64)>)
    ensures
        r@ == byte_ranges(0, total as nat),
{
    let mut v: Vec<(u64, u64)> = Vec::new();
    let mut start: u64 = 0;
    while start < total
        invariant
            start <= total,
            byte_ranges(0, total as nat) == v@ + byte_ranges(start as nat, total as nat),
        decreases total - start,
    {
        let end: u64 = if CHUNK_SIZE - 1 < total - 1 - start {
            start + (CHUNK_SIZE - 1)
        } else {
            total - 1
        };
        let ghost before = v@;
        v.push((start, end));
        proof {
            assert(byte_ranges(start as nat, total as nat) == seq![(start, end)] + byte_ranges((end + 1) as nat, total as nat));
            assert(before + (seq![(start, end)] + byte_ranges((end + 1) as nat, total as nat)) =~= v@ + byte_ranges(
                (end + 1) as nat,
                total as nat,
            ));
        }
        start = end + 1;
    }
    proof {
        assert(v@ + Seq::<(u64, u64)>::empty() =~= v@);
    }
    v
}

/// Law: the ranges of a download cover its bytes in order, without gap
/// or overlap, each at most `CHUNK_SIZE` long.
pub proof fn ranges_cover_the_download(start: nat, total: nat)
    requires
        total <= u64::MAX,
    ensures
        forall|i: int|
            0 <= i < byte_ranges(start, total).len() ==> {
                let (a, b) = #[trigger] byte_ranges(start, total)[i];
                &&& a <= b < total
                &&& b - a < CHUNK_SIZE
                &&& i == 0 ==> a == start
                &&& i + 1 < byte_ranges(start, total).len() ==> byte_ranges(start, total)[i + 1].0 == b + 1
                &&& i + 1 == byte_ranges(start, total).len() ==> b == total - 1
            },
    decreases total - start,
{
    if start < total {
        let end: int = if start + CHUNK_SIZE - 1 < total - 1 {
            start + CHUNK_SIZE - 1
        } else {
            total - 1
        };
        ranges_cover_the_download((end + 1) as nat, total);
        let rest = byte_ranges((end + 1) as nat, total);
        let r = byte_ranges(start, total);
        assert(start as u64 == start && end as u64 == end);
        assert(r == seq![(start as u64, end as u64)] + rest);
        assert(r[0] == (start as u64, end as u64));
        assert forall|i: int| 0 <= i < r.len() implies {
            let (a, b) = #[trigger] r[i];
            &&& a <= b < total
            &&& b - a < CHUNK_SIZE
            &&& i == 0 ==> a == start
            &&& i + 1 < r.len() ==> r[i + 1].0 == b + 1
            &&& i + 1 == r.len() ==> b == total - 1
        } by {
            if i > 0 {
                assert(r[i] == rest[i - 1]);
            }
            if i + 1 < r.len() {
                assert(r[i + 1] == rest[i]);
            }
            if i == 0 && rest.len() == 0 {
                assert(end + 1 >= total);
            }
        }
    }
}

/// A cached archive: its file path, size and modification time (in
/// nanoseconds since the Unix epoch).
pub struct CachedArchive {
    pub path: String,
    pub size: u64,
    pub modified: u128,
}

/// Older archives are evicted first.
pub open spec fn modified_earlier() -> spec_fn(CachedArchive, CachedArchive) -> bool {
    |a: CachedArchive, b: CachedArchive| a.modified < b.modified
}

/// The archives of `s` other than the one at `keep`, in the order given.
pub open spec fn other_than(s: Seq<CachedArchive>, keep: Seq<char>) -> Seq<CachedArchive>
    decreases s.len(),
{
    if s.len() == 0 {
        s
    } else {
        let rest = other_than(s.drop_last(), keep);
        if s.last().path@ == keep {
            rest
        } else {
            rest.push(s.last())
        }
    }
}

/// The order in which archives are evicted when the cache is over its
/// quota: oldest first (ties keep the order given), never the archive
/// just prepared.
pub fn eviction_order(archives: Vec<CachedArchive>, keep: &str) -> (r: Vec<CachedArchive>)
    ensures
        r@ == stable_sorted_by(other_than(archives@, keep@), modified_earlier()),
{
    let mut rest = archives;
    let ghost orig = rest@;
    let total: usize = rest.len();
    let mut out: Vec<CachedArchive> = Vec::new();
    let mut k: usize = 0;
    let ghost mut kept: Seq<CachedArchive> = Seq::empty();
    while rest.len() > 0
        invariant
            k + rest@.len() == orig.len(),
            orig.len() == total,
            rest@ == orig.subrange(k as int, orig.len() as int),
            kept == other_than(orig.subrange(0, k as int), keep@),
            out@ == stable_sorted_by(kept, modified_earlier()),
        decreases rest@.len(),
    {
        let a = rest.remove(0);
        proof {
            assert(a == orig[k as int]);
            assert(orig.subrange(0, k + 1).drop_last() =~= orig.subrange(0, k as int));
        }
        if !str_eq(a.path.as_str(), keep) {
            let ghost before = out@;
            let mut p: usize = out.len();
            while p > 0 && a.modified < out[p - 1].modified
                invariant
                    p <= out@.len(),
                    out@ == before,
                    forall|j: int| p <= j < out@.len() ==> (modified_earlier())(a, #[trigger] out@[j]),
                decreases p,
            {
                p = p - 1;
            }
            proof {
                lemma_insert_by_at(before, a, modified_earlier(), p as int);
                assert(kept.push(a).drop_last() =~= kept);
                kept = kept.push(a);
            }
            out.insert(p, a);
        }
        k = k + 1;
        proof {
            assert(rest@ =~= orig.subrange(k as int, orig.len() as int));
        }
    }
    proof {
        assert(orig.subrange(0, orig.len() as int) =~= orig);
    }
    out
}

/// Whether a download is fetched in ranges: the store supports ranged
/// requests and reported a size above one chunk.
pub fn use_ranged_download(supports_range: bool, content_length: Option<u64>) -> (r: bool)
    ensures
        r == match content_length {
            Some(n) => supports_range && n > CHUNK_SIZE,
            None => false,
        },
{
    match content_length {
        Some(n) => supports_range && n > CHUNK_SIZE,
        None => false,
    }
}

} // verus!

//! Package archives uploaded to a service: upload checks, file names,
//! storage keys, list order and quota pruning.

use vstd::prelude::*;
use crate::api::state::{json_error, ApiError};
use crate::tarball::{TarListing, TarListingView, dot, has_parent_component, is_main_name, normalize_path, normalized, main_name, read_tar_listing, tar_listing, TarEntryView};
use crate::text::{
    chars_of, is_whitespace, is_whitespace_char, lemma_trim_end, lemma_trim_start, trim, concat_str, decimal, lower_hex, lower_hex_string, lemma_lower_hex_len, push_decimal, push_str,
    seq_starts_with, string_from_chars, from_utf8_lossy, utf8_lossy,
};

verus! {

/// Each service may keep at most this many bytes of available package
/// blobs (200 MiB).
pub const SERVICE_BLOB_CAP_BYTES: u64 = 209715200;
/// Largest accepted number of archive members.
pub const MAX_TAR_ENTRIES: usize = 10000;
/// Largest accepted total of declared member sizes.
pub const MAX_TAR_CONTENT_BYTES: u64 = 209715200;

/// Storage lifecycle of a package's archive blob.
#[derive(Clone, Copy, Debug, PartialEq, Eq, Structural)]
pub enum BlobStatus {
    Available,
    Pruned,
    Deleted,
}

/// Immutable metadata of one uploaded package archive.
#[derive(Clone, Debug)]
pub struct Package {
    pub id: String,
    pub service_id: String,
    pub app_id: String,
    pub owner: u64,
    pub filename: String,
    pub sha256: String,
    pub size_bytes: u64,
    pub blob_status: BlobStatus,
    pub created_at: String,
    pub pruned_at: Option<String>,
    pub deleted_at: Option<String>,
}

/// What the upload checks learned about an accepted archive.
#[derive(Clone, Debug)]
pub struct ArchiveInfo {
    pub sha256: String,
    pub size_bytes: u64,
    pub entries: usize,
}

/// `user:{owner}:app:{app_id}:service:{service_id}:packages`
pub open spec fn service_packages_key(owner: u64, app_id: Seq<char>, service_id: Seq<char>) -> Seq<char> {
    "user:"@ + decimal(owner as nat) + ":app:"@ + app_id + ":service:"@ + service_id + ":packages"@
}

/// The storage hash that holds a service's package records.
pub fn key_service_packages(owner: u64, app_id: &str, service_id: &str) -> (k: String)
    ensures
        k@ == service_packages_key(owner, app_id@, service_id@),
{
    let s = push_decimal(String::from_str("user:"), owner);
    let s = push_str(push_str(s, ":app:"), app_id);
    let s = push_str(push_str(s, ":service:"), service_id);
    push_str(s, ":packages")
}

/// The object-store key of a package archive: `{package_id}.tar`.
pub fn blob_key(package_id: &str) -> (k: String)
    ensures
        k@ == package_id@ + ".tar"@,
{
    concat_str(package_id, ".tar")
}

// ---------------------------------------------------------------------
// Upload file names.

/// `/` or `\`.
pub open spec fn is_separator(c: char) -> bool {
    c == '/' || c == '\\'
}

/// The characters after the last separator.
pub open spec fn basename(s: Seq<char>) -> Seq<char>
    decreases s.len(),
{
    if s.len() == 0 {
        s
    } else if is_separator(s.last()) {
        Seq::empty()
    } else {
        basename(s.drop_last()).push(s.last())
    }
}

/// General category `Cc`, as `char::is_control` decides it.
pub open spec fn is_control(c: char) -> bool {
    let u = c as u32;
    u <= 0x1F || (0x7F <= u <= 0x9F)
}

/// Characters that are kept in a stored file name.
pub open spec fn printable() -> spec_fn(char) -> bool {
    |c: char| !is_control(c)
}

/// The stored name of an upload: the base name of the client's file
/// name, trimmed, without control characters, at most 255 characters, and
/// `package.tar` where that leaves nothing, `.` or `..`.
pub open spec fn safe_filename(raw: Option<Seq<char>>) -> Seq<char> {
    let source = match raw {
        Some(r) => r,
        None => "package.tar"@,
    };
    let printable = trim(basename(source)).filter(printable());
    let capped = if printable.len() > 255 {
        printable.take(255)
    } else {
        printable
    };
    if capped.len() == 0 || capped == "."@ || capped == ".."@ {
        "package.tar"@
    } else {
        capped
    }
}

fn is_control_char(c: char) -> (r: bool)
    ensures
        r == is_control(c),
{
    let u = c as u32;
    u <= 0x1F || (0x7F <= u && u <= 0x9F)
}

proof fn lemma_basename_suffix(s: Seq<char>, k: int)
    requires
        0 <= k <= s.len(),
        k == 0 || is_separator(s[k - 1]),
        forall|j: int| k <= j < s.len() ==> !is_separator(#[trigger] s[j]),
    ensures
        basename(s) =~= s.subrange(k, s.len() as int),
    decreases s.len(),
{
    if s.len() == 0 {
    } else if s.len() == k {
        assert(is_separator(s.last()));
    } else {
        let d = s.drop_last();
        assert forall|j: int| k <= j < d.len() implies !is_separator(#[trigger] d[j]) by {
            assert(d[j] == s[j]);
        }
        if k > 0 {
            assert(d[k - 1] == s[k - 1]);
        }
        lemma_basename_suffix(d, k);
        assert(s.subrange(k, s.len() as int) =~= d.subrange(k, d.len() as int).push(s.last()));
    }
}

/// The name under which an upload is recorded (see `safe_filename`).
pub fn safe_package_filename(raw: Option<&str>) -> (name: String)
    ensures
        name@ == safe_filename(
            match raw {
                Some(r) => Some(r@),
                None => None,
            },
        ),
{
    let source = match raw {
        Some(r) => chars_of(r),
        None => chars_of("package.tar"),
    };
    let ghost src = source@;
    let n = source.len();
    // Start of the base name: one past the last separator.
    let mut k: usize = n;
    while k > 0 && !(source[k - 1] == '/' || source[k - 1] == '\\')
        invariant
            k <= n,
            n == source@.len(),
            forall|j: int| k <= j < n ==> !is_separator(#[trigger] source@[j]),
        decreases k,
    {
        k = k - 1;
    }
    proof {
        lemma_basename_suffix(src, k as int);
    }
    let ghost base = src.subrange(k as int, n as int);
    // Trim leading whitespace.
    let mut a: usize = k;
    while a < n && is_whitespace_char(source[a])
        invariant
            k <= a <= n,
            n == source@.len(),
            forall|j: int| k <= j < a ==> is_whitespace(#[trigger] source@[j]),
        decreases n - a,
    {
        a = a + 1;
    }
    proof {
        assert forall|j: int| 0 <= j < a - k implies is_whitespace(#[trigger] base[j]) by {
            assert(base[j] == src[j + k]);
        }
        if a < n {
            assert(base[a - k] == src[a as int]);
        }
        lemma_trim_start(base, a - k);
    }
    let ghost started = src.subrange(a as int, n as int);
    assert(base.subrange(a - k, base.len() as int) =~= started);
    // Trim trailing whitespace.
    let mut b: usize = n;
    while b > a && is_whitespace_char(source[b - 1])
        invariant
            a <= b <= n,
            n == source@.len(),
            forall|j: int| b <= j < n ==> is_whitespace(#[trigger] source@[j]),
        decreases b,
    {
        b = b - 1;
    }
    proof {
        assert forall|j: int| b - a <= j < started.len() implies is_whitespace(#[trigger] started[j]) by {
            assert(started[j] == src[j + a]);
        }
        if b > a {
            assert(started[b - a - 1] == src[b - 1]);
        }
        lemma_trim_end(started, b - a);
    }
    let ghost trimmed = src.subrange(a as int, b as int);
    assert(started.subrange(0, b - a) =~= trimmed);
    // Drop control characters.
    let mut kept: Vec<char> = Vec::new();
    let mut i: usize = a;
    while i < b
        invariant
            a <= i <= b <= n,
            n == source@.len(),
            trimmed == source@.subrange(a as int, b as int),
            kept@ == source@.subrange(a as int, i as int).filter(printable()),
        decreases b - i,
    {
        let c = source[i];
        proof {
            let pre = source@.subrange(a as int, i as int + 1);
            assert(pre.drop_last() =~= source@.subrange(a as int, i as int));
            assert(pre.last() == c);
            reveal(Seq::filter);
        }
        if !is_control_char(c) {
            kept.push(c);
        }
        i = i + 1;
    }
    proof {
        assert(source@.subrange(a as int, b as int) == trimmed);
    }
    let ghost printable = trimmed.filter(printable());
    let mut capped: Vec<char> = Vec::new();
    let mut j: usize = 0;
    while j < kept.len() && j < 255
        invariant
            j <= kept@.len(),
            j <= 255,
            capped@ == kept@.subrange(0, j as int),
        decreases kept@.len() - j,
    {
        capped.push(kept[j]);
        j = j + 1;
    }
    proof {
        if kept@.len() > 255 {
            assert(capped@ =~= kept@.take(255));
        } else {
            assert(capped@ =~= kept@);
        }
    }
    let is_dot = capped.len() == 1 && capped[0] == '.';
    let is_dot_dot = capped.len() == 2 && capped[0] == '.' && capped[1] == '.';
    proof {
        reveal_strlit(".");
        reveal_strlit("..");
        if is_dot {
            assert(capped@ =~= "."@);
        } else {
            assert(capped@ != "."@);
        }
        if is_dot_dot {
            assert(capped@ =~= ".."@);
        } else {
            assert(capped@ != ".."@);
        }
    }
    if capped.len() == 0 || is_dot || is_dot_dot {
        String::from_str("package.tar")
    } else {
        string_from_chars(&capped)
    }
}

// ---------------------------------------------------------------------
// Archive checks.

/// `./`
pub open spec fn dot_slash() -> Seq<u8> {
    seq![46u8, 47u8]
}

/// A relative path all of whose components are names: not empty, not
/// rooted, not starting at `.` and without `..` (std's `Path::components`
/// yielding only `Normal` components).
pub open spec fn plain_relative(p: Seq<u8>) -> bool {
    p.len() > 0 && p[0] != 47u8 && p != dot() && !seq_starts_with(p, dot_slash())
        && !has_parent_component(p)
}

/// The refusal of an entry path, if any.
pub open spec fn archive_path_fault(p: Seq<u8>) -> Option<Seq<char>> {
    if p.len() == 0 || p[0] == 47u8 {
        Some("tar entries must use non-empty relative paths"@)
    } else if !plain_relative(p) {
        Some("unsafe tar path: "@ + utf8_lossy(p))
    } else {
        None
    }
}

/// Checks that an entry path is relative and made only of names.
pub fn validate_archive_path(path: &[u8]) -> (r: Result<(), String>)
    ensures
        match archive_path_fault(path@) {
            None => r is Ok,
            Some(m) => r matches Err(s) && s@ == m,
        },
{
    if path.len() == 0 || path[0] == 47u8 {
        return Err(String::from_str("tar entries must use non-empty relative paths"));
    }
    let (_normalized_path, parent) = normalize_path(path);
    let leading_dot = (path.len() == 1 && path[0] == 46u8) || (path.len() >= 2 && path[0] == 46u8
        && path[1] == 47u8);
    proof {
        if path@.len() == 1 && path@[0] == 46u8 {
            assert(path@ =~= dot());
        }
        if path@ == dot() {
            assert(path@[0] == 46u8);
        }
        if path@.len() >= 2 && path@[0] == 46u8 && path@[1] == 47u8 {
            assert(path@.subrange(0, 2) =~= dot_slash());
        }
        if seq_starts_with(path@, dot_slash()) {
            assert(path@.subrange(0, 2)[0] == path@[0]);
            assert(path@.subrange(0, 2)[1] == path@[1]);
        }
    }
    if leading_dot || parent {
        return Err(concat_str("unsafe tar path: ", from_utf8_lossy(path).as_str()));
    }
    Ok(())
}

/// The SHA-256 digest of some bytes.
pub uninterp spec fn sha256(data: Seq<u8>) -> Seq<u8>;

/// `sha2::Sha256::digest`: the 32-byte SHA-256 digest of `data`.
#[verifier::external_body]
fn sha256_digest(data: &[u8]) -> (d: Vec<u8>)
    ensures
        d@ == sha256(data@),
        d@.len() == 32,
{
    <sha2::Sha256 as sha2::Digest>::digest(data).to_vec()
}

/// The sum of the header sizes of the first `n` members, as far as they
/// parse (unparsable sizes count as zero).
pub open spec fn content_prefix(entries: Seq<TarEntryView>, n: int) -> nat
    decreases n,
{
    if n <= 0 {
        0
    } else {
        content_prefix(entries, n - 1) + match entries[n - 1].header_size {
            Ok(s) => s as nat,
            Err(_) => 0,
        }
    }
}

/// The refusal that member `i` causes when every earlier member passed.
pub open spec fn upload_entry_fault(entries: Seq<TarEntryView>, i: int) -> Option<Seq<char>> {
    let e = entries[i];
    if i + 1 > MAX_TAR_ENTRIES {
        Some("tar contains more than 10000 entries"@)
    } else if archive_path_fault(e.path) is Some {
        archive_path_fault(e.path)
    } else if e.type_byte != 48u8 && e.type_byte != 53u8 {
        Some("tar links, devices, and special entries are not allowed: "@ + utf8_lossy(e.path))
    } else if e.header_size is Err {
        Some("invalid tar entry size: "@ + e.header_size->Err_0)
    } else if content_prefix(entries, i + 1) > u64::MAX {
        Some("tar content size overflow"@)
    } else if content_prefix(entries, i + 1) > MAX_TAR_CONTENT_BYTES {
        Some("tar content exceeds the 209715200 byte limit"@)
    } else if normalized(e.path) == main_name() && e.type_byte != 48u8 {
        Some("root main must be a regular file"@)
    } else if normalized(e.path) == main_name() && e.mode is Err {
        Some("invalid main mode: "@ + e.mode->Err_0)
    } else if normalized(e.path) == main_name() && e.mode->Ok_0 & 73u32 == 0 {
        Some("root main must be executable"@)
    } else if e.body is Err {
        Some("truncated or unreadable tar entry: "@ + e.body->Err_0)
    } else {
        None
    }
}

pub open spec fn first_upload_fault(entries: Seq<TarEntryView>, i: int) -> Option<Seq<char>>
    decreases entries.len() - i,
{
    if i < 0 || i >= entries.len() {
        None
    } else {
        match upload_entry_fault(entries, i) {
            Some(m) => Some(m),
            None => first_upload_fault(entries, i + 1),
        }
    }
}

proof fn lemma_first_upload_fault_skip(entries: Seq<TarEntryView>, i: int)
    requires
        0 <= i <= entries.len(),
        forall|j: int| 0 <= j < i ==> #[trigger] upload_entry_fault(entries, j) is None,
    ensures
        first_upload_fault(entries, 0) == first_upload_fault(entries, i),
    decreases i,
{
    if i > 0 {
        assert(upload_entry_fault(entries, i - 1) is None);
        lemma_first_upload_fault_skip(entries, i - 1);
    }
}

/// The verdict of the upload checks on an archive as the tar reader
/// lists it: the number of members when it is accepted.
pub open spec fn upload_listing_verdict(listing: TarListingView) -> Result<nat, Seq<char>> {
    if listing.open_error is Some {
        Err("invalid tar archive: "@ + listing.open_error->Some_0)
    } else if first_upload_fault(listing.entries, 0) is Some {
        Err(first_upload_fault(listing.entries, 0)->Some_0)
    } else if listing.stream_error is Some {
        Err("invalid tar entry: "@ + listing.stream_error->Some_0)
    } else if !(exists|j: int|
        0 <= j < listing.entries.len() && #[trigger] normalized(listing.entries[j].path) == main_name()) {
        Err("tar must contain an executable file named main at its root"@)
    } else {
        Ok(listing.entries.len())
    }
}

/// The verdict of the upload checks on an archive's bytes.
pub open spec fn upload_verdict(bytes: Seq<u8>) -> Result<(Seq<char>, nat, nat), Seq<char>> {
    if bytes.len() == 0 {
        Err("package archive is empty"@)
    } else if bytes.len() > SERVICE_BLOB_CAP_BYTES {
        Err("package exceeds the 209715200 byte service blob cap"@)
    } else {
        match upload_listing_verdict(tar_listing(bytes)) {
            Ok(count) => Ok((lower_hex(sha256(bytes)), bytes.len(), count)),
            Err(m) => Err(m),
        }
    }
}

/// Checks an archive as the tar reader lists it: every member's path,
/// type, size and (for the root `main`) mode, the member limit, the
/// total of declared sizes, and a root `main`.  Gives the number of
/// members of an accepted archive.
pub fn validate_upload_listing(listing: &TarListing) -> (r: Result<usize, String>)
    ensures
        match upload_listing_verdict(listing@) {
            Ok(count) => r matches Ok(n) && n == count,
            Err(m) => r matches Err(s) && s@ == m,
        },
{
    let ghost lv = listing@;
    match &listing.open_error {
        Some(m) => {
            return Err(concat_str("invalid tar archive: ", m.as_str()));
        },
        None => {},
    }
    let mut content_bytes: u64 = 0;
    let mut has_root_main = false;
    let mut i: usize = 0;
    while i < listing.entries.len()
        invariant
            lv == listing@,
            lv.open_error is None,
            i <= listing.entries@.len(),
            lv.entries.len() == listing.entries@.len(),
            forall|j: int| 0 <= j < i ==> #[trigger] upload_entry_fault(lv.entries, j) is None,
            content_bytes == content_prefix(lv.entries, i as int),
            has_root_main == (exists|j: int| 0 <= j < i && #[trigger] normalized(lv.entries[j].path) == main_name()),
        decreases listing.entries@.len() - i,
    {
        let e = &listing.entries[i];
        let ghost ev = lv.entries[i as int];
        proof {
            assert(ev == e@);
            lemma_first_upload_fault_skip(lv.entries, i as int);
        }
        if i >= MAX_TAR_ENTRIES {
            assert(upload_entry_fault(lv.entries, i as int) is Some);
            return Err(String::from_str("tar contains more than 10000 entries"));
        }
        match validate_archive_path(e.path.as_slice()) {
            Err(m) => {
                assert(upload_entry_fault(lv.entries, i as int) is Some);
                return Err(m);
            },
            Ok(()) => {},
        }
        let is_file = e.type_byte == 48u8;
        if !is_file && e.type_byte != 53u8 {
            return Err(concat_str(
                "tar links, devices, and special entries are not allowed: ",
                from_utf8_lossy(e.path.as_slice()).as_str(),
            ));
        }
        let entry_size = match &e.header_size {
            Err(m) => {
                return Err(concat_str("invalid tar entry size: ", m.as_str()));
            },
            Ok(s) => *s,
        };
        proof {
            assert(content_prefix(lv.entries, i as int + 1) == content_prefix(lv.entries, i as int)
                + entry_size);
        }
        match content_bytes.checked_add(entry_size) {
            None => {
                return Err(String::from_str("tar content size overflow"));
            },
            Some(t) => {
                content_bytes = t;
            },
        }
        if content_bytes > MAX_TAR_CONTENT_BYTES {
            return Err(String::from_str("tar content exceeds the 209715200 byte limit"));
        }
        let (norm, _parent) = normalize_path(e.path.as_slice());
        if is_main_name(norm.as_slice()) {
            if !is_file {
                return Err(String::from_str("root main must be a regular file"));
            }
            match &e.mode {
                Err(m) => {
                    return Err(concat_str("invalid main mode: ", m.as_str()));
                },
                Ok(mode) => {
                    if *mode & 73u32 == 0 {
                        return Err(String::from_str("root main must be executable"));
                    }
                },
            }
            has_root_main = true;
        }
        match &e.body {
            Err(m) => {
                return Err(concat_str("truncated or unreadable tar entry: ", m.as_str()));
            },
            Ok(()) => {},
        }
        proof {
            assert(upload_entry_fault(lv.entries, i as int) is None);
        }
        i = i + 1;
    }
    proof {
        lemma_first_upload_fault_skip(lv.entries, i as int);
    }
    match &listing.stream_error {
        Some(m) => {
            return Err(concat_str("invalid tar entry: ", m.as_str()));
        },
        None => {},
    }
    if !has_root_main {
        return Err(String::from_str("tar must contain an executable file named main at its root"));
    }
    Ok(i)
}

/// Checks an uploaded package archive and returns its checksum, size and
/// number of members.
pub fn validate_archive(bytes: &[u8]) -> (r: Result<ArchiveInfo, String>)
    ensures
        match upload_verdict(bytes@) {
            Ok((hash, size, count)) => r matches Ok(info) && info.sha256@ == hash && info.sha256@.len()
                == 64 && info.size_bytes == size && info.entries == count,
            Err(m) => r matches Err(s) && s@ == m,
        },
{
    let size_bytes = bytes.len() as u64;
    if size_bytes == 0 {
        return Err(String::from_str("package archive is empty"));
    }
    if size_bytes > SERVICE_BLOB_CAP_BYTES {
        return Err(String::from_str("package exceeds the 209715200 byte service blob cap"));
    }
    let digest = sha256_digest(bytes);
    let sha = lower_hex_string(digest.as_slice());
    proof {
        lemma_lower_hex_len(digest@);
    }
    let listing = read_tar_listing(bytes);
    match validate_upload_listing(&listing) {
        Ok(entries) => Ok(ArchiveInfo { sha256: sha, size_bytes, entries }),
        Err(m) => Err(m),
    }
}

} // verus!

verus! {

// ---------------------------------------------------------------------
// Package history order and quota pruning.

/// Packages as listed to clients: newest first (the stored history is
/// oldest first).
pub fn packages_newest_first(packages: Vec<Package>) -> (r: Vec<Package>)
    ensures
        r@ == packages@.reverse(),
{
    let mut rest = packages;
    let ghost orig = rest@;
    let mut out: Vec<Package> = Vec::new();
    while rest.len() > 0
        invariant
            rest@.len() <= orig.len(),
            rest@ == orig.subrange(0, rest@.len() as int),
            out@ == orig.subrange(rest@.len() as int, orig.len() as int).reverse(),
        decreases rest@.len(),
    {
        let ghost n = rest@.len() as int;
        let ghost before = out@;
        let p = rest.pop().unwrap();
        out.push(p);
        proof {
            assert(rest@ =~= orig.subrange(0, n - 1));
            assert(p == orig[n - 1]);
            let a = orig.subrange(n - 1, orig.len() as int);
            let b = orig.subrange(n, orig.len() as int);
            assert(a.reverse().len() == b.reverse().len() + 1);
            assert forall|j: int| 0 <= j < a.len() implies #[trigger] a.reverse()[j] == b.reverse().push(orig[n - 1])[j] by {
                if j < b.len() {
                    assert(a.reverse()[j] == a[a.len() - 1 - j]);
                    assert(b.reverse()[j] == b[b.len() - 1 - j]);
                } else {
                    assert(a.reverse()[j] == a[0]);
                }
            }
            assert(a.reverse() =~= b.reverse().push(orig[n - 1]));
        }
    }
    proof {
        assert(orig.subrange(0, orig.len() as int) =~= orig);
    }
    out
}

/// Whether a package's blob is still stored.
pub open spec fn is_available(p: Package) -> bool {
    p.blob_status == BlobStatus::Available
}

/// The bytes of available blobs among the packages from index `i` on.
pub open spec fn available_from(pkgs: Seq<Package>, i: int) -> nat
    decreases pkgs.len() - i,
{
    if i < 0 || i >= pkgs.len() {
        0
    } else {
        (if is_available(pkgs[i]) {
            pkgs[i].size_bytes as nat
        } else {
            0
        }) + available_from(pkgs, i + 1)
    }
}

/// A package whose blob may be pruned: stored and not the active one.
pub open spec fn prunable(p: Package, active: Seq<char>) -> bool {
    is_available(p) && p.id@ != active
}

/// The packages pruned from index `i` on while `avail` available bytes
/// exceed the cap: oldest first, skipping the active package and blobs
/// already gone.
pub open spec fn prune_plan(pkgs: Seq<Package>, active: Seq<char>, i: int, avail: int) -> Seq<Seq<char>>
    decreases pkgs.len() - i,
{
    if i < 0 || i >= pkgs.len() || avail <= SERVICE_BLOB_CAP_BYTES {
        Seq::empty()
    } else if prunable(pkgs[i], active) {
        seq![pkgs[i].id@] + prune_plan(pkgs, active, i + 1, avail - pkgs[i].size_bytes)
    } else {
        prune_plan(pkgs, active, i + 1, avail)
    }
}

/// The available bytes that remain when the plan from `i` stops.
pub open spec fn prune_remaining(pkgs: Seq<Package>, active: Seq<char>, i: int, avail: int) -> int
    decreases pkgs.len() - i,
{
    if i < 0 || i >= pkgs.len() || avail <= SERVICE_BLOB_CAP_BYTES {
        avail
    } else if prunable(pkgs[i], active) {
        prune_remaining(pkgs, active, i + 1, avail - pkgs[i].size_bytes)
    } else {
        prune_remaining(pkgs, active, i + 1, avail)
    }
}

/// How many packages from index `i` on may be pruned.
pub open spec fn prunable_count(pkgs: Seq<Package>, active: Seq<char>, i: int) -> nat
    decreases pkgs.len() - i,
{
    if i < 0 || i >= pkgs.len() {
        0
    } else {
        (if prunable(pkgs[i], active) {
            1nat
        } else {
            0nat
        }) + prunable_count(pkgs, active, i + 1)
    }
}

pub proof fn lemma_available_from_bound(pkgs: Seq<Package>, i: int, j: int)
    requires
        0 <= i <= j,
    ensures
        available_from(pkgs, j) <= available_from(pkgs, i),
    decreases j - i,
{
    if i < j && i < pkgs.len() {
        lemma_available_from_bound(pkgs, i + 1, j);
    }
}

/// The ids of the packages whose blobs must be pruned to bring a service
/// within its blob cap, oldest first; the active package is never pruned.
pub fn packages_to_prune(packages: &[Package], active_package_id: &str) -> (r: Vec<String>)
    requires
        available_from(packages@, 0) <= u64::MAX,
    ensures
        r@.map_values(|s: String| s@) == prune_plan(
            packages@,
            active_package_id@,
            0,
            available_from(packages@, 0) as int,
        ),
{
    let ghost pkgs = packages@;
    let ghost active = active_package_id@;
    let n = packages.len();
    let mut total: u64 = 0;
    let mut k: usize = n;
    while k > 0
        invariant
            k <= n,
            n == pkgs.len(),
            pkgs == packages@,
            available_from(pkgs, 0) <= u64::MAX,
            total == available_from(pkgs, k as int),
        decreases k,
    {
        k = k - 1;
        proof {
            lemma_available_from_bound(pkgs, 0, k as int);
        }
        if packages[k].blob_status == BlobStatus::Available {
            total = total + packages[k].size_bytes;
        }
    }
    let mut available_bytes: u64 = total;
    let mut result: Vec<String> = Vec::new();
    let mut i: usize = 0;
    while i < n
        invariant
            i <= n,
            n == pkgs.len(),
            pkgs == packages@,
            active == active_package_id@,
            total == available_from(pkgs, 0),
            available_bytes >= available_from(pkgs, i as int),
            result@.map_values(|s: String| s@) + prune_plan(pkgs, active, i as int, available_bytes as int)
                == prune_plan(pkgs, active, 0, total as int),
        ensures
            i >= n || available_bytes <= SERVICE_BLOB_CAP_BYTES,
            result@.map_values(|s: String| s@) + prune_plan(pkgs, active, i as int, available_bytes as int)
                == prune_plan(pkgs, active, 0, total as int),
            total == available_from(pkgs, 0),
        decreases n - i,
    {
        if available_bytes <= SERVICE_BLOB_CAP_BYTES {
            proof {
                assert(prune_plan(pkgs, active, i as int, available_bytes as int) =~= Seq::empty());
                assert(result@.map_values(|s: String| s@) + Seq::<Seq<char>>::empty() =~= result@.map_values(|s: String| s@));
            }
            break;
        }
        let p = &packages[i];
        let same = crate::text::str_eq(p.id.as_str(), active_package_id);
        if p.blob_status == BlobStatus::Available && !same {
            let ghost before = result@.map_values(|s: String| s@);
            available_bytes = available_bytes - p.size_bytes;
            result.push(p.id.clone());
            proof {
                assert(result@.map_values(|s: String| s@) =~= before.push(pkgs[i as int].id@));
                assert(before.push(pkgs[i as int].id@) + prune_plan(pkgs, active, i + 1, available_bytes as int)
                    =~= before + (seq![pkgs[i as int].id@] + prune_plan(pkgs, active, i + 1, available_bytes as int)));
            }
        }
        i = i + 1;
    }
    proof {
        if i >= n || available_bytes <= SERVICE_BLOB_CAP_BYTES {
            assert(prune_plan(pkgs, active, i as int, available_bytes as int) =~= Seq::empty());
            assert(result@.map_values(|s: String| s@) + Seq::<Seq<char>>::empty() =~= result@.map_values(|s: String| s@));
        }
    }
    result
}

/// Law: pruning never selects the active package.
pub proof fn prune_never_selects_active(pkgs: Seq<Package>, active: Seq<char>, i: int, avail: int)
    ensures
        !prune_plan(pkgs, active, i, avail).contains(active),
    decreases pkgs.len() - i,
{
    if !(i < 0 || i >= pkgs.len() || avail <= SERVICE_BLOB_CAP_BYTES) {
        if prunable(pkgs[i], active) {
            prune_never_selects_active(pkgs, active, i + 1, avail - pkgs[i].size_bytes);
            let rest = prune_plan(pkgs, active, i + 1, avail - pkgs[i].size_bytes);
            assert(prune_plan(pkgs, active, i, avail) == seq![pkgs[i].id@] + rest);
            if (seq![pkgs[i].id@] + rest).contains(active) {
                let k = choose|k: int| 0 <= k < (seq![pkgs[i].id@] + rest).len() && (seq![pkgs[i].id@] + rest)[k] == active;
                if k > 0 {
                    assert(rest[k - 1] == active);
                }
            }
        } else {
            prune_never_selects_active(pkgs, active, i + 1, avail);
        }
    }
}

/// Law: every pruned id names a package whose blob is still available,
/// at or after the starting index.
pub proof fn prune_selects_available(pkgs: Seq<Package>, active: Seq<char>, i: int, avail: int, k: int)
    requires
        0 <= k < prune_plan(pkgs, active, i, avail).len(),
    ensures
        exists|j: int| i <= j < pkgs.len() && #[trigger] is_available(pkgs[j]) && pkgs[j].id@ == prune_plan(pkgs, active, i, avail)[k],
    decreases pkgs.len() - i,
{
    if !(i < 0 || i >= pkgs.len() || avail <= SERVICE_BLOB_CAP_BYTES) {
        if prunable(pkgs[i], active) {
            let rest = prune_plan(pkgs, active, i + 1, avail - pkgs[i].size_bytes);
            if k == 0 {
                assert(is_available(pkgs[i]));
            } else {
                prune_selects_available(pkgs, active, i + 1, avail - pkgs[i].size_bytes, k - 1);
                let j = choose|j: int| i + 1 <= j < pkgs.len() && #[trigger] is_available(pkgs[j]) && pkgs[j].id@ == rest[k - 1];
                assert(is_available(pkgs[j]));
            }
        } else {
            prune_selects_available(pkgs, active, i + 1, avail, k);
            let j = choose|j: int| i + 1 <= j < pkgs.len() && #[trigger] is_available(pkgs[j]) && pkgs[j].id@ == prune_plan(pkgs, active, i + 1, avail)[k];
            assert(is_available(pkgs[j]));
        }
    }
}

/// Law: after pruning, the available bytes are within the cap, unless
/// every package that may be pruned was pruned.
pub proof fn prune_reaches_cap(pkgs: Seq<Package>, active: Seq<char>, i: int, avail: int)
    requires
        0 <= i,
    ensures
        prune_remaining(pkgs, active, i, avail) <= SERVICE_BLOB_CAP_BYTES || prune_plan(pkgs, active, i, avail).len()
            == prunable_count(pkgs, active, i),
    decreases pkgs.len() - i,
{
    if !(i >= pkgs.len() || avail <= SERVICE_BLOB_CAP_BYTES) {
        if prunable(pkgs[i], active) {
            prune_reaches_cap(pkgs, active, i + 1, avail - pkgs[i].size_bytes);
        } else {
            prune_reaches_cap(pkgs, active, i + 1, avail);
        }
    }
}

// ---------------------------------------------------------------------
// Package records.

/// The record of a package just uploaded for a service: its blob is
/// available.
pub fn new_package_record(
    service: &crate::api::services::Service,
    id: String,
    filename: String,
    archive: ArchiveInfo,
    now: String,
) -> (p: Package)
    ensures
        p.id == id,
        p.service_id == service.id,
        p.app_id == service.app_id,
        p.owner == service.owner,
        p.filename == filename,
        p.sha256 == archive.sha256,
        p.size_bytes == archive.size_bytes,
        p.blob_status == BlobStatus::Available,
        p.created_at == now,
        p.pruned_at is None && p.deleted_at is None,
{
    Package {
        id,
        service_id: service.id.clone(),
        app_id: service.app_id.clone(),
        owner: service.owner,
        filename,
        sha256: archive.sha256,
        size_bytes: archive.size_bytes,
        blob_status: BlobStatus::Available,
        created_at: now,
        pruned_at: None,
        deleted_at: None,
    }
}

/// A package upload as the multipart form delivers it: the file name the
/// client gave, if any, and the uploaded bytes.
pub struct PackageUpload {
    pub name: Option<String>,
    pub content: Vec<u8>,
}

impl PackageUpload {
    /// The record of an uploaded package under a fresh id: its name made
    /// safe, its checksum and size from the upload checks.  An archive the
    /// checks refuse is answered 400 with their message.
    pub fn accept(
        &self,
        service: &crate::api::services::Service,
        package_id: String,
        now: String,
    ) -> (r: Result<Package, ApiError>)
        ensures
            match upload_verdict(self.content@) {
                Ok((hash, size, _count)) => r matches Ok(p) && p.id == package_id && p.filename@
                    == safe_filename(
                    match self.name {
                        Some(n) => Some(n@),
                        None => None,
                    },
                ) && p.sha256@ == hash && p.sha256@.len() == 64 && p.size_bytes == size && p.service_id == service.id
                    && p.app_id == service.app_id && p.owner == service.owner && p.blob_status
                    == BlobStatus::Available && p.created_at == now && p.pruned_at is None
                    && p.deleted_at is None,
                Err(m) => r matches Err(e) && e.status == 400 && e.message@ == m,
            },
    {
        let filename = match &self.name {
            Some(n) => safe_package_filename(Some(n.as_str())),
            None => safe_package_filename(None),
        };
        match validate_archive(self.content.as_slice()) {
            Ok(archive) => Ok(new_package_record(service, package_id, filename, archive, now)),
            Err(message) => Err(json_error(400, message)),
        }
    }
}

/// The package ids of a service after recording one: unchanged if it is
/// already listed, else appended.
pub open spec fn with_package_id(ids: Seq<Seq<char>>, id: Seq<char>) -> Seq<Seq<char>> {
    if ids.contains(id) {
        ids
    } else {
        ids.push(id)
    }
}

/// Lists a package in the service's history, once.
pub fn record_package_id(service: &mut crate::api::services::Service, package_id: &str)
    ensures
        final(service).package_ids@.map_values(|s: String| s@) == with_package_id(
            old(service).package_ids@.map_values(|s: String| s@),
            package_id@,
        ),
        final(service).id == old(service).id && final(service).active_package_id == old(service).active_package_id
            && final(service).active_deployment_id == old(service).active_deployment_id,
{
    let ghost ids = service.package_ids@.map_values(|s: String| s@);
    let mut i: usize = 0;
    while i < service.package_ids.len()
        invariant
            i <= service.package_ids@.len(),
            ids == service.package_ids@.map_values(|s: String| s@),
            forall|j: int| 0 <= j < i ==> #[trigger] ids[j] != package_id@,
        decreases service.package_ids@.len() - i,
    {
        if crate::text::str_eq(service.package_ids[i].as_str(), package_id) {
            proof {
                assert(ids[i as int] == package_id@);
            }
            return;
        }
        i = i + 1;
    }
    let ghost before = service.package_ids@;
    service.package_ids.push(String::from_str(package_id));
    proof {
        assert(service.package_ids@.map_values(|s: String| s@) =~= ids.push(package_id@));
    }
}

/// Law: recording a package twice lists it as recording it once does.
pub proof fn recording_a_package_is_idempotent(ids: Seq<Seq<char>>, id: Seq<char>)
    ensures
        with_package_id(with_package_id(ids, id), id) == with_package_id(ids, id),
        with_package_id(ids, id).contains(id),
{
    if !ids.contains(id) {
        assert(ids.push(id)[ids.len() as int] == id);
    }
}

/// Records that a package's blob was pruned to respect the cap.
pub fn mark_pruned(package: &mut Package, now: String)
    ensures
        *final(package) == (Package { blob_status: BlobStatus::Pruned, pruned_at: Some(now), ..*old(package) }),
{
    package.blob_status = BlobStatus::Pruned;
    package.pruned_at = Some(now);
}

/// Deletes a package's blob from the record; only an available blob is
/// deleted, others are left as they are.
pub fn mark_deleted(package: &mut Package, now: String) -> (deleted: bool)
    ensures
        deleted == (old(package).blob_status == BlobStatus::Available),
        deleted ==> *final(package) == (Package {
            blob_status: BlobStatus::Deleted,
            deleted_at: Some(now),
            ..*old(package)
        }),
        !deleted ==> *final(package) == *old(package),
{
    if package.blob_status == BlobStatus::Available {
        package.blob_status = BlobStatus::Deleted;
        package.deleted_at = Some(now);
        true
    } else {
        false
    }
}

/// Refuses to delete the active package (409).
pub fn check_deletable(service: &crate::api::services::Service, package_id: &str) -> (r: Result<(), ApiError>)
    ensures
        if service.active_package_id matches Some(a) && a@ == package_id@ {
            r matches Err(e) && e.status == 409 && e.message@
                == "the active package cannot be deleted; activate another package first"@
        } else {
            r is Ok
        },
{
    let is_active = match &service.active_package_id {
        Some(a) => crate::text::str_eq(a.as_str(), package_id),
        None => false,
    };
    if is_active {
        Err(json_error(409, String::from_str("the active package cannot be deleted; activate another package first")))
    } else {
        Ok(())
    }
}

/// Deletes package `package_id` of a service, given its loaded record:
/// the active package is refused with 409 and its record left as it is;
/// otherwise an available blob is marked deleted (`mark_deleted`).  The
/// result says whether the blob is to be removed from storage.
pub fn delete_package(
    service: &crate::api::services::Service,
    package_id: &str,
    package: &mut Package,
    now: String,
) -> (r: Result<bool, ApiError>)
    ensures
        if service.active_package_id matches Some(a) && a@ == package_id@ {
            r matches Err(e) && e.status == 409 && e.message@
                == "the active package cannot be deleted; activate another package first"@
                && *final(package) == *old(package)
        } else {
            r == Ok::<bool, ApiError>(old(package).blob_status == BlobStatus::Available) && (old(package).blob_status
                == BlobStatus::Available ==> *final(package) == (Package {
                blob_status: BlobStatus::Deleted,
                deleted_at: Some(now),
                ..*old(package)
            })) && (old(package).blob_status != BlobStatus::Available ==> *final(package) == *old(package))
        },
{
    match check_deletable(service, package_id) {
        Err(e) => Err(e),
        Ok(()) => Ok(mark_deleted(package, now)),
    }
}

/// Whether a stored package belongs to the service.
pub open spec fn package_of(p: Package, service: crate::api::services::Service) -> bool {
    p.owner == service.owner && p.app_id@ == service.app_id@ && p.service_id@ == service.id@
}

/// Answers 404 `package not found` for a stored package of another
/// service.
pub fn check_package_owner(package: &Package, service: &crate::api::services::Service) -> (r: Result<(), ApiError>)
    ensures
        if package_of(*package, *service) {
            r is Ok
        } else {
            r matches Err(e) && e.status == 404 && e.message@ == "package not found"@
        },
{
    if package.owner != service.owner || !crate::text::str_eq(package.app_id.as_str(), service.app_id.as_str())
        || !crate::text::str_eq(package.service_id.as_str(), service.id.as_str()) {
        return Err(json_error(404, String::from_str("package not found")));
    }
    Ok(())
}

// ---------------------------------------------------------------------
// Package history order.

/// `s` without the packages whose id is `id`.
pub open spec fn without_id(s: Seq<Package>, id: Seq<char>) -> Seq<Package>
    decreases s.len(),
{
    if s.len() == 0 {
        s
    } else {
        let r = without_id(s.drop_last(), id);
        if s.last().id@ == id {
            r
        } else {
            r.push(s.last())
        }
    }
}

/// The service's packages among the stored ones, one per id: a later
/// record with the same id replaces an earlier one.
pub open spec fn latest_of_service(s: Seq<Package>, service: crate::api::services::Service) -> Seq<Package>
    decreases s.len(),
{
    if s.len() == 0 {
        s
    } else {
        let r = latest_of_service(s.drop_last(), service);
        if package_of(s.last(), service) {
            without_id(r, s.last().id@).push(s.last())
        } else {
            r
        }
    }
}

/// The index of the first package with the id, if any.
pub open spec fn index_of_id(s: Seq<Package>, id: Seq<char>) -> Option<int>
    decreases s.len(),
{
    if s.len() == 0 {
        None
    } else if s[0].id@ == id {
        Some(0)
    } else {
        match index_of_id(s.drop_first(), id) {
            Some(i) => Some(i + 1),
            None => None,
        }
    }
}

/// The packages listed by `ids`, in that order, and the packages left.
pub open spec fn take_listed(pool: Seq<Package>, ids: Seq<Seq<char>>) -> (Seq<Package>, Seq<Package>)
    decreases ids.len(),
{
    if ids.len() == 0 {
        (Seq::empty(), pool)
    } else {
        let prev = take_listed(pool, ids.drop_last());
        match index_of_id(prev.1, ids.last()) {
            Some(i) => (prev.0.push(prev.1[i]), prev.1.remove(i)),
            None => prev,
        }
    }
}

/// Unlisted packages come oldest first.
pub open spec fn package_created_earlier() -> spec_fn(Package, Package) -> bool {
    |a: Package, b: Package| crate::text::text_lt(a.created_at@, b.created_at@)
}

/// A service's package history: its packages in the order the service
/// lists them, then those it does not list, oldest first.
pub open spec fn package_history(stored: Seq<Package>, service: crate::api::services::Service) -> Seq<Package> {
    let taken = take_listed(latest_of_service(stored, service), service.package_ids@.map_values(|s: String| s@));
    taken.0 + crate::order::stable_sorted_by(taken.1, package_created_earlier())
}

fn remove_id(pool: Vec<Package>, id: &String) -> (r: Vec<Package>)
    ensures
        r@ == without_id(pool@, id@),
{
    let mut rest = pool;
    let ghost orig = rest@;
    let total: usize = rest.len();
    let mut out: Vec<Package> = Vec::new();
    let mut k: usize = 0;
    while rest.len() > 0
        invariant
            k + rest@.len() == orig.len(),
            orig.len() == total,
            rest@ == orig.subrange(k as int, orig.len() as int),
            out@ == without_id(orig.subrange(0, k as int), id@),
        decreases rest@.len(),
    {
        let p = rest.remove(0);
        proof {
            assert(p == orig[k as int]);
            assert(orig.subrange(0, k + 1).drop_last() =~= orig.subrange(0, k as int));
        }
        if !crate::text::string_eq(&p.id, id) {
            out.push(p);
        }
        k = k + 1;
        proof {
            assert(rest@ =~= orig.subrange(k as int, orig.len() as int));
        }
    }
    proof {
        assert(orig.subrange(0, orig.len() as int) =~= orig);
    }
    out
}

fn find_id(pool: &Vec<Package>, id: &String) -> (r: Option<usize>)
    ensures
        match r {
            Some(i) => index_of_id(pool@, id@) == Some(i as int) && i < pool@.len(),
            None => index_of_id(pool@, id@) is None,
        },
{
    let mut i: usize = 0;
    while i < pool.len()
        invariant
            i <= pool@.len(),
            forall|j: int| 0 <= j < i ==> #[trigger] pool@[j].id@ != id@,
        decreases pool@.len() - i,
    {
        if crate::text::string_eq(&pool[i].id, id) {
            proof {
                lemma_index_of_id(pool@, id@, i as int);
            }
            return Some(i);
        }
        i = i + 1;
    }
    proof {
        lemma_index_of_id(pool@, id@, pool@.len() as int);
    }
    None
}

proof fn lemma_index_of_id(s: Seq<Package>, id: Seq<char>, i: int)
    requires
        0 <= i <= s.len(),
        forall|j: int| 0 <= j < i ==> #[trigger] s[j].id@ != id,
        i < s.len() ==> s[i].id@ == id,
    ensures
        i < s.len() ==> index_of_id(s, id) == Some(i),
        i == s.len() ==> index_of_id(s, id) is None,
    decreases i,
{
    if s.len() > 0 && i > 0 {
        let d = s.drop_first();
        assert forall|j: int| 0 <= j < i - 1 implies #[trigger] d[j].id@ != id by {
            assert(d[j] == s[j + 1]);
        }
        if i < s.len() {
            assert(d[i - 1] == s[i]);
        }
        lemma_index_of_id(d, id, i - 1);
        assert(s[0].id@ != id);
    }
}

/// Orders a service's stored packages as its history (see
/// `package_history`).
pub fn order_package_history(stored: Vec<Package>, service: &crate::api::services::Service) -> (r: Vec<Package>)
    ensures
        r@ == package_history(stored@, *service),
{
    // The service's packages, one per id.
    let mut rest = stored;
    let ghost orig = rest@;
    let total: usize = rest.len();
    let mut pool: Vec<Package> = Vec::new();
    let mut k: usize = 0;
    while rest.len() > 0
        invariant
            k + rest@.len() == orig.len(),
            orig.len() == total,
            rest@ == orig.subrange(k as int, orig.len() as int),
            pool@ == latest_of_service(orig.subrange(0, k as int), *service),
        decreases rest@.len(),
    {
        let p = rest.remove(0);
        proof {
            assert(p == orig[k as int]);
            assert(orig.subrange(0, k + 1).drop_last() =~= orig.subrange(0, k as int));
        }
        if check_package_owner(&p, service).is_ok() {
            pool = remove_id(pool, &p.id);
            pool.push(p);
        }
        k = k + 1;
        proof {
            assert(rest@ =~= orig.subrange(k as int, orig.len() as int));
        }
    }
    proof {
        assert(orig.subrange(0, orig.len() as int) =~= orig);
    }
    // The packages the service lists, in its order.
    let ghost ids = service.package_ids@.map_values(|s: String| s@);
    let ghost pool0 = pool@;
    let mut listed: Vec<Package> = Vec::new();
    let mut i: usize = 0;
    while i < service.package_ids.len()
        invariant
            i <= service.package_ids@.len(),
            ids == service.package_ids@.map_values(|s: String| s@),
            (listed@, pool@) == take_listed(pool0, ids.subrange(0, i as int)),
        decreases service.package_ids@.len() - i,
    {
        proof {
            assert(ids.subrange(0, i + 1).drop_last() =~= ids.subrange(0, i as int));
            assert(ids.subrange(0, i + 1).last() == service.package_ids@[i as int]@);
        }
        match find_id(&pool, &service.package_ids[i]) {
            Some(j) => {
                let ghost before = pool@;
                let p = pool.remove(j);
                listed.push(p);
                proof {
                    assert(p == before[j as int]);
                }
            },
            None => {},
        }
        i = i + 1;
    }
    proof {
        assert(ids.subrange(0, ids.len() as int) =~= ids);
    }
    // The unlisted ones, oldest first.
    let mut rest = pool;
    let ghost orig = rest@;
    let total: usize = rest.len();
    let mut out: Vec<Package> = Vec::new();
    let mut k: usize = 0;
    while rest.len() > 0
        invariant
            k + rest@.len() == orig.len(),
            orig.len() == total,
            rest@ == orig.subrange(k as int, orig.len() as int),
            out@ == crate::order::stable_sorted_by(orig.subrange(0, k as int), package_created_earlier()),
        decreases rest@.len(),
    {
        let p = rest.remove(0);
        proof {
            assert(p == orig[k as int]);
            crate::order::lemma_stable_sorted_step(orig, k as int, package_created_earlier());
        }
        let ghost before = out@;
        let mut q: usize = out.len();
        while q > 0 && crate::text::str_lt(p.created_at.as_str(), out[q - 1].created_at.as_str())
            invariant
                q <= out@.len(),
                out@ == before,
                forall|j: int| q <= j < out@.len() ==> (package_created_earlier())(p, #[trigger] out@[j]),
            decreases q,
        {
            q = q - 1;
        }
        proof {
            crate::order::lemma_insert_by_at(before, p, package_created_earlier(), q as int);
        }
        out.insert(q, p);
        k = k + 1;
        proof {
            assert(rest@ =~= orig.subrange(k as int, orig.len() as int));
        }
    }
    proof {
        assert(orig.subrange(0, orig.len() as int) =~= orig);
    }
    let mut history = listed;
    let mut out = out;
    history.append(&mut out);
    history
}

proof fn lemma_without_id_contained(s: Seq<Package>, id: Seq<char>)
    ensures
        forall|k: int| 0 <= k < without_id(s, id).len() ==> s.contains(#[trigger] without_id(s, id)[k]),
    decreases s.len(),
{
    if s.len() > 0 {
        let r = without_id(s.drop_last(), id);
        lemma_without_id_contained(s.drop_last(), id);
        let w = without_id(s, id);
        assert forall|k: int| 0 <= k < w.len() implies s.contains(#[trigger] w[k]) by {
            if k < r.len() {
                assert(w[k] == r[k]);
                let j = choose|j: int| 0 <= j < s.drop_last().len() && s.drop_last()[j] == r[k];
                assert(s[j] == r[k]);
            } else {
                assert(w[k] == s[s.len() - 1]);
            }
        }
    }
}

proof fn lemma_latest_of_service_belongs(s: Seq<Package>, service: crate::api::services::Service)
    ensures
        forall|k: int|
            0 <= k < latest_of_service(s, service).len() ==> package_of(
                #[trigger] latest_of_service(s, service)[k],
                service,
            ),
    decreases s.len(),
{
    if s.len() > 0 {
        let r = latest_of_service(s.drop_last(), service);
        lemma_latest_of_service_belongs(s.drop_last(), service);
        if package_of(s.last(), service) {
            let w = without_id(r, s.last().id@);
            lemma_without_id_contained(r, s.last().id@);
            let l = latest_of_service(s, service);
            assert forall|k: int| 0 <= k < l.len() implies package_of(#[trigger] l[k], service) by {
                if k < w.len() {
                    assert(l[k] == w[k]);
                    let j = choose|j: int| 0 <= j < r.len() && r[j] == w[k];
                    assert(package_of(r[j], service));
                }
            }
        }
    }
}

proof fn lemma_index_of_id_bounds(s: Seq<Package>, id: Seq<char>)
    ensures
        index_of_id(s, id) matches Some(i) ==> 0 <= i < s.len(),
    decreases s.len(),
{
    if s.len() > 0 {
        lemma_index_of_id_bounds(s.drop_first(), id);
    }
}

proof fn lemma_take_listed_permutes(pool: Seq<Package>, ids: Seq<Seq<char>>)
    ensures
        (take_listed(pool, ids).0 + take_listed(pool, ids).1).to_multiset() == pool.to_multiset(),
    decreases ids.len(),
{
    broadcast use vstd::seq_lib::group_to_multiset_ensures;
    broadcast use vstd::seq_lib::lemma_multiset_commutative;
    broadcast use vstd::multiset::group_multiset_axioms;

    if ids.len() > 0 {
        let prev = take_listed(pool, ids.drop_last());
        lemma_take_listed_permutes(pool, ids.drop_last());
        lemma_index_of_id_bounds(prev.1, ids.last());
        match index_of_id(prev.1, ids.last()) {
            Some(i) => {
                let x = prev.1[i];
                assert((prev.0.push(x) + prev.1.remove(i)).to_multiset() =~= prev.0.to_multiset().insert(x).add(
                    prev.1.to_multiset().remove(x),
                ));
                assert(prev.1.to_multiset().count(x) > 0) by {
                    assert(prev.1.contains(x));
                }
                assert((prev.0.push(x) + prev.1.remove(i)).to_multiset() =~= (prev.0 + prev.1).to_multiset());
            },
            None => {},
        }
    }
}

/// Law: a package history holds exactly the service's stored packages
/// (the latest record per id), each once, and only packages of the
/// service.
pub proof fn history_holds_the_services_packages(stored: Seq<Package>, service: crate::api::services::Service)
    ensures
        package_history(stored, service).to_multiset() == latest_of_service(stored, service).to_multiset(),
        forall|k: int|
            0 <= k < package_history(stored, service).len() ==> package_of(
                #[trigger] package_history(stored, service)[k],
                service,
            ),
{
    broadcast use vstd::seq_lib::group_to_multiset_ensures;
    broadcast use vstd::seq_lib::lemma_multiset_commutative;

    let pool = latest_of_service(stored, service);
    let ids = service.package_ids@.map_values(|s: String| s@);
    let taken = take_listed(pool, ids);
    lemma_take_listed_permutes(pool, ids);
    crate::order::stable_sort_is_permutation(taken.1, package_created_earlier());
    let h = package_history(stored, service);
    assert(h == taken.0 + crate::order::stable_sorted_by(taken.1, package_created_earlier()));
    assert(h.to_multiset() =~= taken.0.to_multiset().add(
        crate::order::stable_sorted_by(taken.1, package_created_earlier()).to_multiset(),
    ));
    assert((taken.0 + taken.1).to_multiset() =~= taken.0.to_multiset().add(taken.1.to_multiset()));
    lemma_latest_of_service_belongs(stored, service);
    assert forall|k: int| 0 <= k < h.len() implies package_of(#[trigger] h[k], service) by {
        assert(h.contains(h[k]));
        assert(h.to_multiset().count(h[k]) > 0);
        assert(pool.to_multiset().count(h[k]) > 0);
        assert(pool.contains(h[k]));
        let w = choose|w: int| 0 <= w < pool.len() && pool[w] == h[k];
        assert(package_of(pool[w], service));
    }
}

} // verus!

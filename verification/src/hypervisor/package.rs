//! Validation of the exact tar bytes that are sent to the container
//! engine.  The engine extracts uploads at `/`, so packages are restricted
//! to canonical POSIX-relative paths and regular files or directories, with
//! an executable regular file `main` at the root.

use vstd::prelude::*;
use crate::tarball::{
    debug_lossy, debug_lossy_text, dot_dot, has_parent_component, is_main_name, key_view, main_name, split_slash,
    normalize_path, normalized, read_tar_listing, tar_listing, PaxInfo, PaxView, TarEntryView,
    TarListing, TarListingView,
};
use crate::text::{bytes_eq, bytes_start_with, concat_str, decimal, push_decimal, push_str, seq_starts_with};

verus! {

/// Largest accepted archive, in bytes (256 MiB).
pub const MAX_PACKAGE_ARCHIVE_SIZE: u64 = 268435456;
/// Largest accepted number of archive members.
pub const MAX_PACKAGE_ENTRIES: usize = 4096;
/// Largest accepted total of declared member sizes, in bytes (256 MiB).
pub const MAX_PACKAGE_EXTRACTED_SIZE: u64 = 268435456;

/// Why a package archive was refused.
pub struct PackageValidationError {
    pub message: String,
}

impl PackageValidationError {
    pub fn new(message: String) -> (e: Self)
        ensures
            e.message@ == message@,
    {
        PackageValidationError { message }
    }

    /// The message, as the error's `Display` writes it.
    pub fn to_string(&self) -> (s: String)
        ensures
            s@ == self.message@,
    {
        self.message.clone()
    }
}

/// Why an entry path was refused.
pub enum PathFault {
    Empty,
    Absolute,
    Nul,
    Backslash,
    Parent,
    NoName,
}

/// The first rule that the raw path `p` breaks, checked in this order.
pub open spec fn path_fault(p: Seq<u8>) -> Option<PathFault> {
    if p.len() == 0 {
        Some(PathFault::Empty)
    } else if p[0] == 47u8 {
        Some(PathFault::Absolute)
    } else if p.contains(0u8) {
        Some(PathFault::Nul)
    } else if p.contains(92u8) {
        Some(PathFault::Backslash)
    } else if has_parent_component(p) {
        Some(PathFault::Parent)
    } else if normalized(p).len() == 0 {
        Some(PathFault::NoName)
    } else {
        None
    }
}

/// The message for a refused raw path.
pub open spec fn path_fault_message(f: PathFault, p: Seq<u8>) -> Seq<char> {
    let shown = debug_lossy_text(p);
    match f {
        PathFault::Empty => "archive entry has an empty path"@,
        PathFault::Absolute => "archive entry path "@ + shown + " is absolute"@,
        PathFault::Nul => "archive entry path "@ + shown + " contains a NUL byte"@,
        PathFault::Backslash => "archive entry path "@ + shown
            + " contains a non-POSIX path separator"@,
        PathFault::Parent => "archive entry path "@ + shown + " contains .."@,
        PathFault::NoName => "archive entry path "@ + shown
            + " does not name a file or directory"@,
    }
}

fn contains_byte(p: &[u8], b: u8) -> (r: bool)
    ensures
        r == p@.contains(b),
{
    let mut i: usize = 0;
    while i < p.len()
        invariant
            i <= p@.len(),
            forall|j: int| 0 <= j < i ==> p@[j] != b,
        decreases p@.len() - i,
    {
        if p[i] == b {
            assert(p@[i as int] == b);
            return true;
        }
        i = i + 1;
    }
    false
}

fn path_error(f: PathFault, p: &[u8]) -> (e: PackageValidationError)
    ensures
        e.message@ == path_fault_message(f, p@),
{
    let shown = debug_lossy(p);
    let message = match f {
        PathFault::Empty => String::from_str("archive entry has an empty path"),
        PathFault::Absolute => push_str(concat_str("archive entry path ", shown.as_str()), " is absolute"),
        PathFault::Nul => push_str(concat_str("archive entry path ", shown.as_str()), " contains a NUL byte"),
        PathFault::Backslash => push_str(
            concat_str("archive entry path ", shown.as_str()),
            " contains a non-POSIX path separator",
        ),
        PathFault::Parent => push_str(concat_str("archive entry path ", shown.as_str()), " contains .."),
        PathFault::NoName => push_str(
            concat_str("archive entry path ", shown.as_str()),
            " does not name a file or directory",
        ),
    };
    PackageValidationError::new(message)
}

/// Checks one raw entry path and returns its normalized form: empty and
/// `.` components dropped, components joined by single `/`.
pub fn validate_path(raw_path: &[u8]) -> (r: Result<Vec<u8>, PackageValidationError>)
    ensures
        match path_fault(raw_path@) {
            None => r matches Ok(v) && v@ == normalized(raw_path@),
            Some(f) => r matches Err(e) && e.message@ == path_fault_message(f, raw_path@),
        },
{
    if raw_path.len() == 0 {
        return Err(path_error(PathFault::Empty, raw_path));
    }
    if raw_path[0] == 47u8 {
        return Err(path_error(PathFault::Absolute, raw_path));
    }
    if contains_byte(raw_path, 0u8) {
        return Err(path_error(PathFault::Nul, raw_path));
    }
    if contains_byte(raw_path, 92u8) {
        return Err(path_error(PathFault::Backslash, raw_path));
    }
    let (normalized_path, parent) = normalize_path(raw_path);
    if parent {
        return Err(path_error(PathFault::Parent, raw_path));
    }
    if normalized_path.len() == 0 {
        return Err(path_error(PathFault::NoName, raw_path));
    }
    Ok(normalized_path)
}

/// Law: the path an accepted entry is normalized to is itself accepted,
/// and normalizes to itself: accepted paths come out canonical.
pub proof fn accepted_paths_are_canonical(p: Seq<u8>)
    requires
        path_fault(p) is None,
    ensures
        path_fault(normalized(p)) is None,
        normalized(normalized(p)) == normalized(p),
{
    let n = normalized(p);
    crate::tarball::normalizing_twice_changes_nothing(p);
    crate::tarball::lemma_normalized_shape(p);
    assert(!n.contains(0u8)) by {
        if n.contains(0u8) {
            assert(p.contains(0u8));
        }
    }
    assert(!n.contains(92u8)) by {
        if n.contains(92u8) {
            assert(p.contains(92u8));
        }
    }
    assert(!has_parent_component(n)) by {
        if has_parent_component(n) {
            let i = choose|i: int| 0 <= i < split_slash(n).len() && #[trigger] split_slash(n)[i] == dot_dot();
            assert(split_slash(p).contains(split_slash(n)[i]));
            let j = choose|j: int| 0 <= j < split_slash(p).len() && split_slash(p)[j] == split_slash(n)[i];
            assert(split_slash(p)[j] == dot_dot());
        }
    }
}

/// `GNU.sparse.`
pub open spec fn sparse_prefix() -> Seq<u8> {
    seq![71u8, 78u8, 85u8, 46u8, 115u8, 112u8, 97u8, 114u8, 115u8, 101u8, 46u8]
}

/// The first pax record that is malformed or describes sparse data.
pub open spec fn keys_fault(keys: Seq<Result<Seq<u8>, Seq<char>>>, shown: Seq<char>) -> Option<
    Seq<char>,
>
    decreases keys.len(),
{
    if keys.len() == 0 {
        None
    } else {
        match keys[0] {
            Err(m) => Some("invalid archive metadata for "@ + shown + ": "@ + m),
            Ok(k) => if seq_starts_with(k, sparse_prefix()) {
                Some("archive entry "@ + shown + " uses unsupported sparse metadata"@)
            } else {
                keys_fault(keys.drop_first(), shown)
            },
        }
    }
}

pub open spec fn pax_fault(pax: PaxView, shown: Seq<char>) -> Option<Seq<char>> {
    match pax {
        PaxView::Unreadable(m) => Some("could not read archive metadata for "@ + shown + ": "@ + m),
        PaxView::Absent => None,
        PaxView::Keys(keys) => keys_fault(keys, shown),
    }
}

/// The sum of the sizes of the first `n` members.
pub open spec fn size_prefix(entries: Seq<TarEntryView>, n: int) -> nat
    decreases n,
{
    if n <= 0 {
        0
    } else {
        size_prefix(entries, n - 1) + (entries[n - 1].size as nat)
    }
}

/// The refusal that member `i` causes when every earlier member passed.
pub open spec fn entry_fault(
    entries: Seq<TarEntryView>,
    i: int,
    max_entries: nat,
    max_extracted_size: nat,
) -> Option<Seq<char>> {
    let e = entries[i];
    let norm = normalized(e.path);
    let shown = debug_lossy_text(norm);
    if i + 1 > max_entries {
        Some("archive has more than "@ + decimal(max_entries) + " entries"@)
    } else if path_fault(e.path) is Some {
        Some(path_fault_message(path_fault(e.path)->Some_0, e.path))
    } else if exists|j: int| 0 <= j < i && #[trigger] normalized(entries[j].path) == norm {
        Some("archive contains duplicate path "@ + shown)
    } else if pax_fault(e.pax, shown) is Some {
        pax_fault(e.pax, shown)
    } else if e.type_byte != 48u8 && e.type_byte != 53u8 {
        Some("archive entry "@ + shown + " is not a regular file or directory"@)
    } else if size_prefix(entries, i + 1) > u64::MAX {
        Some("archive extracted size overflowed"@)
    } else if size_prefix(entries, i + 1) > max_extracted_size {
        Some("archive extracts to more than "@ + decimal(max_extracted_size) + " bytes"@)
    } else if norm == main_name() && e.type_byte != 48u8 {
        Some("root main entry is not a regular file"@)
    } else if norm == main_name() && e.mode is Err {
        Some("root main has an invalid mode: "@ + e.mode->Err_0)
    } else if norm == main_name() && e.mode->Ok_0 & 73u32 == 0 {
        Some("root main entry is not executable"@)
    } else if e.body is Err {
        Some("could not read archive entry "@ + shown + ": "@ + e.body->Err_0)
    } else {
        None
    }
}

/// The refusal of the first failing member from `i` on, if any.
pub open spec fn first_entry_fault(
    entries: Seq<TarEntryView>,
    i: int,
    max_entries: nat,
    max_extracted_size: nat,
) -> Option<Seq<char>>
    decreases entries.len() - i,
{
    if i < 0 || i >= entries.len() {
        None
    } else {
        match entry_fault(entries, i, max_entries, max_extracted_size) {
            Some(m) => Some(m),
            None => first_entry_fault(entries, i + 1, max_entries, max_extracted_size),
        }
    }
}

/// Whether some member's normalized path is `main`.
pub open spec fn has_root_main(entries: Seq<TarEntryView>) -> bool {
    exists|j: int| 0 <= j < entries.len() && #[trigger] normalized(entries[j].path) == main_name()
}

/// The verdict on an archive as the tar reader lists it.
pub open spec fn listing_verdict(
    listing: TarListingView,
    max_entries: nat,
    max_extracted_size: nat,
) -> Result<(), Seq<char>> {
    if listing.open_error is Some {
        Err("invalid tar archive: "@ + listing.open_error->Some_0)
    } else if first_entry_fault(listing.entries, 0, max_entries, max_extracted_size) is Some {
        Err(first_entry_fault(listing.entries, 0, max_entries, max_extracted_size)->Some_0)
    } else if listing.stream_error is Some {
        Err("invalid tar archive entry: "@ + listing.stream_error->Some_0)
    } else if !has_root_main(listing.entries) {
        Err("archive must contain an executable regular file named main at its root"@)
    } else {
        Ok(())
    }
}

pub open spec fn verdict_matches(r: Result<(), PackageValidationError>, v: Result<(), Seq<char>>) -> bool {
    match v {
        Ok(()) => r is Ok,
        Err(m) => r matches Err(e) && e.message@ == m,
    }
}

proof fn lemma_first_fault_skip(entries: Seq<TarEntryView>, i: int, me: nat, ms: nat)
    requires
        0 <= i <= entries.len(),
        forall|j: int| 0 <= j < i ==> #[trigger] entry_fault(entries, j, me, ms) is None,
    ensures
        first_entry_fault(entries, 0, me, ms) == first_entry_fault(entries, i, me, ms),
    decreases i,
{
    if i > 0 {
        assert(entry_fault(entries, i - 1, me, ms) is None);
        lemma_first_fault_skip(entries, i - 1, me, ms);
    }
}

fn pax_check(pax: &PaxInfo, shown: &String) -> (r: Option<String>)
    ensures
        match pax_fault(pax@, shown@) {
            None => r is None,
            Some(m) => r matches Some(s) && s@ == m,
        },
{
    match pax {
        PaxInfo::Unreadable(m) => {
            let s = push_str(concat_str("could not read archive metadata for ", shown.as_str()), ": ");
            Some(push_str(s, m.as_str()))
        },
        PaxInfo::Absent => None,
        PaxInfo::Keys(keys) => {
            let ghost ks = keys@.map_values(|k: Result<Vec<u8>, String>| key_view(k));
            let sparse: Vec<u8> = vec![71u8, 78u8, 85u8, 46u8, 115u8, 112u8, 97u8, 114u8, 115u8, 101u8, 46u8];
            proof {
                assert(sparse@ =~= sparse_prefix());
                assert(ks.subrange(0, ks.len() as int) =~= ks);
            }
            let mut k: usize = 0;
            while k < keys.len()
                invariant
                    k <= keys@.len(),
                    ks == keys@.map_values(|k: Result<Vec<u8>, String>| key_view(k)),
                    sparse@ == sparse_prefix(),
                    pax_fault(pax@, shown@) == keys_fault(ks, shown@),
                    keys_fault(ks, shown@) == keys_fault(ks.subrange(k as int, ks.len() as int), shown@),
                decreases keys@.len() - k,
            {
                let ghost rest = ks.subrange(k as int, ks.len() as int);
                proof {
                    assert(rest[0] == key_view(keys@[k as int]));
                    assert(rest.drop_first() =~= ks.subrange(k as int + 1, ks.len() as int));
                }
                match &keys[k] {
                    Err(m) => {
                        assert(rest[0] == Err::<Seq<u8>, Seq<char>>(m@));
                        let s = push_str(concat_str("invalid archive metadata for ", shown.as_str()), ": ");
                        return Some(push_str(s, m.as_str()));
                    },
                    Ok(key) => {
                        assert(rest[0] == Ok::<Seq<u8>, Seq<char>>(key@));
                        if bytes_start_with(key.as_slice(), sparse.as_slice()) {
                            let s = push_str(concat_str("archive entry ", shown.as_str()), " uses unsupported sparse metadata");
                            return Some(s);
                        }
                    },
                }
                k = k + 1;
            }
            proof {
                assert(ks.subrange(ks.len() as int, ks.len() as int).len() == 0);
            }
            None
        },
    }
}

/// Validates the archive as the tar reader lists it, with explicit limits
/// on the number of members and on the total of their declared sizes.
pub fn validate_listing(listing: &TarListing, max_entries: usize, max_extracted_size: u64) -> (r: Result<
    (),
    PackageValidationError,
>)
    ensures
        verdict_matches(r, listing_verdict(listing@, max_entries as nat, max_extracted_size as nat)),
{
    let ghost lv = listing@;
    let ghost me = max_entries as nat;
    let ghost ms = max_extracted_size as nat;
    match &listing.open_error {
        Some(m) => {
            return Err(PackageValidationError::new(concat_str("invalid tar archive: ", m.as_str())));
        },
        None => {},
    }
    let mut seen: Vec<Vec<u8>> = Vec::new();
    let mut extracted_size: u64 = 0;
    let mut has_main = false;
    let mut i: usize = 0;
    while i < listing.entries.len()
        invariant
            lv == listing@,
            me == max_entries as nat,
            ms == max_extracted_size as nat,
            lv.open_error is None,
            i <= listing.entries@.len(),
            lv.entries.len() == listing.entries@.len(),
            forall|j: int| 0 <= j < i ==> #[trigger] entry_fault(lv.entries, j, me, ms) is None,
            seen@.len() == i,
            forall|j: int| 0 <= j < i ==> (#[trigger] seen@[j])@ == normalized(lv.entries[j].path),
            extracted_size == size_prefix(lv.entries, i as int),
            has_main == (exists|j: int| 0 <= j < i && #[trigger] normalized(lv.entries[j].path) == main_name()),
        decreases listing.entries@.len() - i,
    {
        let e = &listing.entries[i];
        let ghost ev = lv.entries[i as int];
        proof {
            assert(ev == e@);
            lemma_first_fault_skip(lv.entries, i as int, me, ms);
        }
        if i >= max_entries {
            let s = push_decimal(String::from_str("archive has more than "), max_entries as u64);
            let err = PackageValidationError::new(push_str(s, " entries"));
            proof {
                assert(entry_fault(lv.entries, i as int, me, ms) is Some);
            }
            return Err(err);
        }
        let path = match validate_path(e.path.as_slice()) {
            Ok(p) => p,
            Err(err) => {
                return Err(err);
            },
        };
        let shown = debug_lossy(path.as_slice());
        let mut dup = false;
        let mut k: usize = 0;
        while k < seen.len()
            invariant
                k <= seen@.len(),
                seen@.len() == i,
                forall|j: int| 0 <= j < i ==> (#[trigger] seen@[j])@ == normalized(lv.entries[j].path),
                dup == (exists|j: int| 0 <= j < k && #[trigger] normalized(lv.entries[j].path) == path@),
            decreases seen@.len() - k,
        {
            if bytes_eq(seen[k].as_slice(), path.as_slice()) {
                assert(normalized(lv.entries[k as int].path) == path@);
                dup = true;
            }
            k = k + 1;
        }
        if dup {
            return Err(PackageValidationError::new(concat_str("archive contains duplicate path ", shown.as_str())));
        }
        match pax_check(&e.pax, &shown) {
            Some(m) => {
                return Err(PackageValidationError::new(m));
            },
            None => {},
        }
        let is_file = e.type_byte == 48u8;
        let is_dir = e.type_byte == 53u8;
        if !is_file && !is_dir {
            let s = push_str(concat_str("archive entry ", shown.as_str()), " is not a regular file or directory");
            return Err(PackageValidationError::new(s));
        }
        proof {
            assert(size_prefix(lv.entries, i as int + 1) == size_prefix(lv.entries, i as int) + ev.size);
        }
        match extracted_size.checked_add(e.size) {
            None => {
                return Err(PackageValidationError::new(String::from_str("archive extracted size overflowed")));
            },
            Some(total) => {
                extracted_size = total;
            },
        }
        if extracted_size > max_extracted_size {
            let s = push_decimal(String::from_str("archive extracts to more than "), max_extracted_size);
            return Err(PackageValidationError::new(push_str(s, " bytes")));
        }
        let main = is_main_name(path.as_slice());
        if main {
            if !is_file {
                return Err(PackageValidationError::new(String::from_str("root main entry is not a regular file")));
            }
            match &e.mode {
                Err(m) => {
                    return Err(PackageValidationError::new(concat_str("root main has an invalid mode: ", m.as_str())));
                },
                Ok(mode) => {
                    if *mode & 73u32 == 0 {
                        return Err(PackageValidationError::new(String::from_str("root main entry is not executable")));
                    }
                },
            }
            has_main = true;
        }
        match &e.body {
            Err(m) => {
                let s = push_str(concat_str("could not read archive entry ", shown.as_str()), ": ");
                return Err(PackageValidationError::new(push_str(s, m.as_str())));
            },
            Ok(()) => {},
        }
        proof {
            assert(entry_fault(lv.entries, i as int, me, ms) is None);
        }
        seen.push(path);
        i = i + 1;
        proof {
            assert forall|j: int| 0 <= j < i implies (#[trigger] seen@[j])@ == normalized(lv.entries[j].path) by {
                if j < i - 1 {
                }
            }
        }
    }
    proof {
        lemma_first_fault_skip(lv.entries, i as int, me, ms);
    }
    match &listing.stream_error {
        Some(m) => {
            return Err(PackageValidationError::new(concat_str("invalid tar archive entry: ", m.as_str())));
        },
        None => {},
    }
    if !has_main {
        return Err(PackageValidationError::new(String::from_str(
            "archive must contain an executable regular file named main at its root",
        )));
    }
    Ok(())
}

/// Validates the tar bytes with explicit limits on the number of members
/// and on the total of their declared sizes.
pub fn validate_archive_with_limits(bytes: &[u8], max_entries: usize, max_extracted_size: u64) -> (r:
    Result<(), PackageValidationError>)
    ensures
        verdict_matches(r, listing_verdict(tar_listing(bytes@), max_entries as nat, max_extracted_size as nat)),
{
    let listing = read_tar_listing(bytes);
    validate_listing(&listing, max_entries, max_extracted_size)
}

/// The verdict on archive bytes: the size limit first, then the listing
/// checks with the package limits.
pub open spec fn archive_verdict(bytes: Seq<u8>) -> Result<(), Seq<char>> {
    if bytes.len() > MAX_PACKAGE_ARCHIVE_SIZE {
        Err("archive is "@ + decimal(bytes.len()) + " bytes; maximum is 268435456 bytes"@)
    } else {
        listing_verdict(tar_listing(bytes), MAX_PACKAGE_ENTRIES as nat, MAX_PACKAGE_EXTRACTED_SIZE as nat)
    }
}

/// Validates the exact tar bytes that will be sent to the container engine.
pub fn validate_archive(bytes: &[u8]) -> (r: Result<(), PackageValidationError>)
    ensures
        verdict_matches(r, archive_verdict(bytes@)),
{
    if bytes.len() as u64 > MAX_PACKAGE_ARCHIVE_SIZE {
        let s = push_decimal(String::from_str("archive is "), bytes.len() as u64);
        return Err(PackageValidationError::new(push_str(s, " bytes; maximum is 268435456 bytes")));
    }
    validate_archive_with_limits(bytes, MAX_PACKAGE_ENTRIES, MAX_PACKAGE_EXTRACTED_SIZE)
}

proof fn lemma_size_prefix_monotone(entries: Seq<TarEntryView>, n: int, m: int)
    requires
        n <= m,
    ensures
        size_prefix(entries, n) <= size_prefix(entries, m),
    decreases m - n,
{
    if n < m {
        lemma_size_prefix_monotone(entries, n, m - 1);
        if m > 0 {
            assert(size_prefix(entries, m) == size_prefix(entries, m - 1) + (entries[m - 1].size as nat));
        }
    }
}

proof fn lemma_fault_found(entries: Seq<TarEntryView>, i: int, k: int, me: nat, ms: nat)
    requires
        0 <= i <= k < entries.len(),
        entry_fault(entries, k, me, ms) is Some,
    ensures
        first_entry_fault(entries, i, me, ms) is Some,
    decreases k - i,
{
    if entry_fault(entries, i, me, ms) is None {
        lemma_fault_found(entries, i + 1, k, me, ms);
    }
}

/// Whether a pax record key is well formed and not about sparse data.
pub open spec fn plain_pax_key(key: Result<Seq<u8>, Seq<char>>) -> bool {
    key matches Ok(k) && !seq_starts_with(k, sparse_prefix())
}

proof fn lemma_plain_keys(keys: Seq<Result<Seq<u8>, Seq<char>>>, shown: Seq<char>)
    ensures
        keys_fault(keys, shown) is None <==> forall|k: int| 0 <= k < keys.len() ==> plain_pax_key(#[trigger] keys[k]),
    decreases keys.len(),
{
    if keys.len() > 0 {
        lemma_plain_keys(keys.drop_first(), shown);
        if forall|k: int| 0 <= k < keys.len() ==> plain_pax_key(#[trigger] keys[k]) {
            assert(plain_pax_key(keys[0]));
            assert forall|k: int| 0 <= k < keys.drop_first().len() implies plain_pax_key(#[trigger] keys.drop_first()[k]) by {
                assert(keys.drop_first()[k] == keys[k + 1]);
            }
        }
        if keys_fault(keys, shown) is None {
            assert forall|k: int| 0 <= k < keys.len() implies plain_pax_key(#[trigger] keys[k]) by {
                if k > 0 {
                    assert(keys.drop_first()[k - 1] == keys[k]);
                }
            }
        }
    }
}

/// Law: an archive is refused as holding a duplicate only when a
/// normalized path repeats exactly.  A listing whose members have
/// pairwise distinct normalized paths, and that is valid otherwise (read
/// to the end; within the member and size limits; every member a
/// canonical regular file or directory whose pax records, if any, are
/// well formed and not about sparse data, and with readable contents; a
/// root `main` that is an executable regular file), is accepted.
pub proof fn distinct_valid_members_are_accepted(
    listing: TarListingView,
    max_entries: nat,
    max_extracted_size: nat,
)
    requires
        listing.open_error is None,
        listing.stream_error is None,
        listing.entries.len() <= max_entries,
        max_extracted_size <= u64::MAX,
        size_prefix(listing.entries, listing.entries.len() as int) <= max_extracted_size,
        forall|i: int, j: int|
            0 <= i < j < listing.entries.len() ==> normalized(#[trigger] listing.entries[i].path) != normalized(
                #[trigger] listing.entries[j].path,
            ),
        forall|i: int|
            0 <= i < listing.entries.len() ==> {
                let e = #[trigger] listing.entries[i];
                &&& path_fault(e.path) is None
                &&& e.pax is Absent || (e.pax matches PaxView::Keys(ks) && forall|k: int|
                    0 <= k < ks.len() ==> plain_pax_key(#[trigger] ks[k]))
                &&& e.type_byte == 48u8 || e.type_byte == 53u8
                &&& e.body is Ok
                &&& normalized(e.path) == main_name() ==> e.type_byte == 48u8 && e.mode is Ok && e.mode->Ok_0 & 73u32
                    != 0
            },
        exists|j: int| 0 <= j < listing.entries.len() && normalized(#[trigger] listing.entries[j].path) == main_name(),
    ensures
        listing_verdict(listing, max_entries, max_extracted_size) == Ok::<(), Seq<char>>(()),
{
    let es = listing.entries;
    let n = es.len() as int;
    assert forall|i: int| 0 <= i < n implies #[trigger] entry_fault(es, i, max_entries, max_extracted_size) is None by {
        let e = es[i];
        assert(!(exists|j: int| 0 <= j < i && #[trigger] normalized(es[j].path) == normalized(e.path))) by {
            if exists|j: int| 0 <= j < i && #[trigger] normalized(es[j].path) == normalized(e.path) {
                let j = choose|j: int| 0 <= j < i && #[trigger] normalized(es[j].path) == normalized(e.path);
                assert(normalized(es[j].path) != normalized(es[i].path));
            }
        }
        lemma_size_prefix_monotone(es, i + 1, n);
        match e.pax {
            PaxView::Keys(ks) => lemma_plain_keys(ks, debug_lossy_text(normalized(e.path))),
            _ => {},
        }
    }
    lemma_first_fault_skip(es, n, max_entries, max_extracted_size);
    let j = choose|j: int| 0 <= j < n && normalized(#[trigger] es[j].path) == main_name();
    assert(has_root_main(es));
}

/// Law: an archive in which two members have the same normalized path is
/// refused.
pub proof fn repeated_paths_are_refused(listing: TarListingView, max_entries: nat, max_extracted_size: nat, i: int, j: int)
    requires
        0 <= i < j < listing.entries.len(),
        normalized(listing.entries[i].path) == normalized(listing.entries[j].path),
    ensures
        listing_verdict(listing, max_entries, max_extracted_size) is Err,
{
    let es = listing.entries;
    assert(entry_fault(es, j, max_entries, max_extracted_size) is Some) by {
        assert(normalized(es[i].path) == normalized(es[j].path));
    }
    lemma_fault_found(es, 0, j, max_entries, max_extracted_size);
}

/// Law: an archive with a member that breaks a rule is refused: a path
/// that is not canonical and relative, unreadable or malformed pax
/// records or ones about sparse data, a member
/// that is neither a regular file nor a directory, unreadable contents, or
/// a root `main` that is not an executable regular file.
pub proof fn rule_breaking_members_are_refused(
    listing: TarListingView,
    max_entries: nat,
    max_extracted_size: nat,
    i: int,
)
    requires
        0 <= i < listing.entries.len(),
        ({
            let e = listing.entries[i];
            ||| path_fault(e.path) is Some
            ||| e.pax is Unreadable
            ||| e.pax matches PaxView::Keys(ks) && exists|k: int| 0 <= k < ks.len() && !plain_pax_key(#[trigger] ks[k])
            ||| e.type_byte != 48u8 && e.type_byte != 53u8
            ||| e.body is Err
            ||| normalized(e.path) == main_name() && (e.type_byte != 48u8 || e.mode is Err || e.mode->Ok_0 & 73u32
                == 0)
        }),
    ensures
        listing_verdict(listing, max_entries, max_extracted_size) is Err,
{
    let e = listing.entries[i];
    match e.pax {
        PaxView::Keys(ks) => lemma_plain_keys(ks, debug_lossy_text(normalized(e.path))),
        _ => {},
    }
    assert(entry_fault(listing.entries, i, max_entries, max_extracted_size) is Some);
    lemma_fault_found(listing.entries, 0, i, max_entries, max_extracted_size);
}

/// Law: an archive over the limits is refused: more members than allowed,
/// or member sizes that add up to more than allowed.
pub proof fn archives_over_the_limits_are_refused(listing: TarListingView, max_entries: nat, max_extracted_size: nat)
    requires
        listing.entries.len() > max_entries || size_prefix(listing.entries, listing.entries.len() as int)
            > max_extracted_size,
    ensures
        listing_verdict(listing, max_entries, max_extracted_size) is Err,
{
    let es = listing.entries;
    if es.len() > max_entries {
        assert(entry_fault(es, max_entries as int, max_entries, max_extracted_size) is Some);
        lemma_fault_found(es, 0, max_entries as int, max_entries, max_extracted_size);
    } else {
        let k = es.len() - 1;
        assert(entry_fault(es, k, max_entries, max_extracted_size) is Some);
        lemma_fault_found(es, 0, k, max_entries, max_extracted_size);
    }
}

/// Law: an archive without a root `main` is refused.
pub proof fn archives_without_main_are_refused(listing: TarListingView, max_entries: nat, max_extracted_size: nat)
    requires
        forall|j: int| 0 <= j < listing.entries.len() ==> normalized(#[trigger] listing.entries[j].path) != main_name(),
    ensures
        listing_verdict(listing, max_entries, max_extracted_size) is Err,
{
}

} // verus!

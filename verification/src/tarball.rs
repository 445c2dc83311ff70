//! The tar reading that both archive validators rely on, and the path
//! model that they share.
//!
//! The `tar` crate parses the archive; what it reports about each entry is
//! carried here as plain values (`TarListing`), and the validators are
//! verified functions over that listing.

use vstd::prelude::*;
use crate::text::{from_utf8_lossy, utf8_lossy};

verus! {

/// What the tar reader says about the pax extension records of one entry.
pub enum PaxInfo {
    /// Reading the records failed with this message.
    Unreadable(String),
    /// The entry has no pax records.
    Absent,
    /// The key of each record in order, or the message of a malformed one.
    Keys(Vec<Result<Vec<u8>, String>>),
}

/// One archive member as the tar reader reports it.
pub struct TarEntry {
    /// The member's path bytes (long-name records already applied).
    pub path: Vec<u8>,
    /// Its pax extension records.
    pub pax: PaxInfo,
    /// The type flag byte of its header (`b'0'` regular file, `b'5'` directory).
    pub type_byte: u8,
    /// Its size, taking a pax size record into account.
    pub size: u64,
    /// The size field of its header, or the message of the parse failure.
    pub header_size: Result<u64, String>,
    /// The mode field of its header, or the message of the parse failure.
    pub mode: Result<u32, String>,
    /// Whether its contents could be read to the end, or the read failure.
    pub body: Result<(), String>,
}

/// Everything the tar reader reports about an archive, in order.
pub struct TarListing {
    /// Set when the reader could not start reading entries.
    pub open_error: Option<String>,
    /// The members read before the end or before the first failure.
    pub entries: Vec<TarEntry>,
    /// Set when reading the next member failed; the reader stops there.
    pub stream_error: Option<String>,
}

/// Spec-level form of `PaxInfo`.
pub enum PaxView {
    Unreadable(Seq<char>),
    Absent,
    Keys(Seq<Result<Seq<u8>, Seq<char>>>),
}

/// Spec-level form of `TarEntry`.
pub struct TarEntryView {
    pub path: Seq<u8>,
    pub pax: PaxView,
    pub type_byte: u8,
    pub size: u64,
    pub header_size: Result<u64, Seq<char>>,
    pub mode: Result<u32, Seq<char>>,
    pub body: Result<(), Seq<char>>,
}

/// Spec-level form of `TarListing`.
pub struct TarListingView {
    pub open_error: Option<Seq<char>>,
    pub entries: Seq<TarEntryView>,
    pub stream_error: Option<Seq<char>>,
}

pub open spec fn key_view(k: Result<Vec<u8>, String>) -> Result<Seq<u8>, Seq<char>> {
    match k {
        Ok(v) => Ok(v@),
        Err(s) => Err(s@),
    }
}

pub open spec fn text_result_view<T>(r: Result<T, String>) -> Result<T, Seq<char>> {
    match r {
        Ok(v) => Ok(v),
        Err(s) => Err(s@),
    }
}

impl View for PaxInfo {
    type V = PaxView;

    open spec fn view(&self) -> PaxView {
        match self {
            PaxInfo::Unreadable(m) => PaxView::Unreadable(m@),
            PaxInfo::Absent => PaxView::Absent,
            PaxInfo::Keys(ks) => PaxView::Keys(ks@.map_values(|k: Result<Vec<u8>, String>| key_view(k))),
        }
    }
}

impl View for TarEntry {
    type V = TarEntryView;

    open spec fn view(&self) -> TarEntryView {
        TarEntryView {
            path: self.path@,
            pax: self.pax@,
            type_byte: self.type_byte,
            size: self.size,
            header_size: text_result_view(self.header_size),
            mode: text_result_view(self.mode),
            body: text_result_view(self.body),
        }
    }
}

pub open spec fn opt_text_view(o: Option<String>) -> Option<Seq<char>> {
    match o {
        Some(s) => Some(s@),
        None => None,
    }
}

impl View for TarListing {
    type V = TarListingView;

    open spec fn view(&self) -> TarListingView {
        TarListingView {
            open_error: opt_text_view(self.open_error),
            entries: self.entries@.map_values(|e: TarEntry| e@),
            stream_error: opt_text_view(self.stream_error),
        }
    }
}

/// The paths of the members of an archive, with where reading stopped.
pub struct TarScan {
    pub open_error: Option<String>,
    pub paths: Vec<Vec<u8>>,
    pub stream_error: Option<String>,
}

pub struct TarScanView {
    pub open_error: Option<Seq<char>>,
    pub paths: Seq<Seq<u8>>,
    pub stream_error: Option<Seq<char>>,
}

impl View for TarScan {
    type V = TarScanView;

    open spec fn view(&self) -> TarScanView {
        TarScanView {
            open_error: opt_text_view(self.open_error),
            paths: self.paths@.map_values(|p: Vec<u8>| p@),
            stream_error: opt_text_view(self.stream_error),
        }
    }
}

/// The header fields of one member.
pub struct TarHeader {
    pub type_byte: u8,
    pub size: u64,
    pub header_size: Result<u64, String>,
    pub mode: Result<u32, String>,
}

pub struct TarHeaderView {
    pub type_byte: u8,
    pub size: u64,
    pub header_size: Result<u64, Seq<char>>,
    pub mode: Result<u32, Seq<char>>,
}

impl View for TarHeader {
    type V = TarHeaderView;

    open spec fn view(&self) -> TarHeaderView {
        TarHeaderView {
            type_byte: self.type_byte,
            size: self.size,
            header_size: text_result_view(self.header_size),
            mode: text_result_view(self.mode),
        }
    }
}

/// What `Archive::entries` and `Entry::path_bytes` report of an archive.
pub uninterp spec fn tar_member_paths(archive: Seq<u8>) -> TarScanView;

/// What the header accessors report for each member.
pub uninterp spec fn tar_member_headers(archive: Seq<u8>) -> Seq<TarHeaderView>;

/// What `Entry::pax_extensions` reports for each member.
pub uninterp spec fn tar_member_pax(archive: Seq<u8>) -> Seq<PaxView>;

/// Whether each member's contents could be read to the end.
pub uninterp spec fn tar_member_bodies(archive: Seq<u8>) -> Seq<Result<(), Seq<char>>>;

/// Reads the members of `archive` with the `tar` crate (`Archive::new`
/// over the bytes, `entries`, `Entry::path_bytes`): their paths, the
/// message of a failure to start, and of the failure that ended reading.
/// The reader is deterministic over a byte slice, so its result is named
/// as a function of the bytes.
#[verifier::external_body]
fn scan_tar_paths(archive: &[u8]) -> (s: TarScan)
    ensures
        s@ == tar_member_paths(archive@),
{
    let mut s = TarScan { open_error: None, paths: Vec::new(), stream_error: None };
    match tar::Archive::new(archive).entries() {
        Err(e) => s.open_error = Some(e.to_string()),
        Ok(ms) => for m in ms { match m {
            Err(e) => s.stream_error = Some(e.to_string()),
            Ok(e) => s.paths.push(e.path_bytes().to_vec()),
        } },
    }
    s
}

/// The header fields of each member that reads without error
/// (`header().entry_type().as_byte()`, `size()`, `header().size()`,
/// `header().mode()`), in order.
#[verifier::external_body]
fn scan_tar_headers(archive: &[u8]) -> (h: Vec<TarHeader>)
    ensures
        h@.map_values(|x: TarHeader| x@) == tar_member_headers(archive@),
{
    match tar::Archive::new(archive).entries() {
        Err(_) => Vec::new(),
        Ok(ms) => ms.map_while(|m| m.ok()).map(|e| TarHeader {
            type_byte: e.header().entry_type().as_byte(),
            size: e.size(),
            header_size: e.header().size().map_err(|x| x.to_string()),
            mode: e.header().mode().map_err(|x| x.to_string()),
        }).collect(),
    }
}

/// The keys of the pax records of each member that reads without error
/// (`Entry::pax_extensions`, then `PaxExtension::key_bytes`), in order.
#[verifier::external_body]
fn scan_tar_pax(archive: &[u8]) -> (p: Vec<PaxInfo>)
    ensures
        p@.map_values(|x: PaxInfo| x@) == tar_member_pax(archive@),
{
    match tar::Archive::new(archive).entries() {
        Err(_) => Vec::new(),
        Ok(ms) => ms.map_while(|m| m.ok()).map(|mut e| match e.pax_extensions() {
            Err(x) => PaxInfo::Unreadable(x.to_string()),
            Ok(None) => PaxInfo::Absent,
            Ok(Some(x)) => PaxInfo::Keys(x.map(|k| k.map(|k| k.key_bytes().to_vec()).map_err(|x| x.to_string())).collect()),
        }).collect(),
    }
}

/// Whether the contents of each member that reads without error can be
/// read to the end (`std::io::copy` of the entry), in order.
#[verifier::external_body]
fn scan_tar_bodies(archive: &[u8]) -> (b: Vec<Result<(), String>>)
    ensures
        b@.map_values(|x: Result<(), String>| text_result_view(x)) == tar_member_bodies(archive@),
{
    match tar::Archive::new(archive).entries() {
        Err(_) => Vec::new(),
        Ok(ms) => ms.map_while(|m| m.ok()).map(|mut e| {
            std::io::copy(&mut e, &mut std::io::sink()).map(|_| ()).map_err(|x| x.to_string())
        }).collect(),
    }
}

/// Message reported when the passes over an archive disagree on its
/// number of members.
pub open spec fn uneven_read_message() -> Seq<char> {
    "the archive read differently on successive passes"@
}

/// The number of members on which all passes report.
pub open spec fn listed_count(archive: Seq<u8>) -> nat {
    let a = tar_member_paths(archive).paths.len();
    let b = tar_member_headers(archive).len();
    let c = tar_member_pax(archive).len();
    let d = tar_member_bodies(archive).len();
    let m1 = if a <= b { a } else { b };
    let m2 = if c <= d { c } else { d };
    if m1 <= m2 { m1 } else { m2 }
}

/// Everything the tar reader reports about an archive, member by member.
/// The reader is deterministic, so its passes agree; should they not, the
/// listing ends with the shortest and reports that as a read failure.
pub open spec fn tar_listing(archive: Seq<u8>) -> TarListingView {
    let scan = tar_member_paths(archive);
    let headers = tar_member_headers(archive);
    let pax = tar_member_pax(archive);
    let bodies = tar_member_bodies(archive);
    let n = listed_count(archive);
    TarListingView {
        open_error: scan.open_error,
        entries: Seq::new(
            n,
            |i: int|
                TarEntryView {
                    path: scan.paths[i],
                    pax: pax[i],
                    type_byte: headers[i].type_byte,
                    size: headers[i].size,
                    header_size: headers[i].header_size,
                    mode: headers[i].mode,
                    body: bodies[i],
                },
        ),
        stream_error: if n < scan.paths.len() {
            Some(uneven_read_message())
        } else {
            scan.stream_error
        },
    }
}

/// Reads `archive` with the `tar` crate and lists its members.
pub fn read_tar_listing(archive: &[u8]) -> (listing: TarListing)
    ensures
        listing@ == tar_listing(archive@),
{
    let scan = scan_tar_paths(archive);
    let mut headers = scan_tar_headers(archive);
    let mut pax = scan_tar_pax(archive);
    let mut bodies = scan_tar_bodies(archive);
    let ghost n = listed_count(archive@);
    let ghost lv = tar_listing(archive@);
    let TarScan { open_error, paths, stream_error } = scan;
    let mut paths = paths;
    let count = if paths.len() <= headers.len() { paths.len() } else { headers.len() };
    let count2 = if pax.len() <= bodies.len() { pax.len() } else { bodies.len() };
    let count = if count <= count2 { count } else { count2 };
    let uneven = count < paths.len();
    // Take the members from the back so that each vector can give up its
    // last element; then restore the order.
    paths.truncate(count);
    headers.truncate(count);
    pax.truncate(count);
    bodies.truncate(count);
    let mut reversed: Vec<TarEntry> = Vec::new();
    let mut k: usize = count;
    while k > 0
        invariant
            k <= count,
            count == n,
            paths@.len() == k,
            headers@.len() == k,
            pax@.len() == k,
            bodies@.len() == k,
            forall|i: int| 0 <= i < k ==> (#[trigger] paths@[i])@ == lv.entries[i].path,
            forall|i: int| 0 <= i < k ==> (#[trigger] headers@[i])@ == (TarHeaderView {
                type_byte: lv.entries[i].type_byte,
                size: lv.entries[i].size,
                header_size: lv.entries[i].header_size,
                mode: lv.entries[i].mode,
            }),
            forall|i: int| 0 <= i < k ==> (#[trigger] pax@[i])@ == lv.entries[i].pax,
            forall|i: int| 0 <= i < k ==> text_result_view(#[trigger] bodies@[i]) == lv.entries[i].body,
            lv.entries.len() == n,
            reversed@.len() == count - k,
            forall|j: int| 0 <= j < count - k ==> (#[trigger] reversed@[j])@ == lv.entries[count - 1 - j],
        decreases k,
    {
        let path = paths.pop().unwrap();
        let header = headers.pop().unwrap();
        let p = pax.pop().unwrap();
        let body = bodies.pop().unwrap();
        let e = TarEntry {
            path,
            pax: p,
            type_byte: header.type_byte,
            size: header.size,
            header_size: header.header_size,
            mode: header.mode,
            body,
        };
        reversed.push(e);
        k = k - 1;
    }
    let mut entries: Vec<TarEntry> = Vec::new();
    while reversed.len() > 0
        invariant
            reversed@.len() + entries@.len() == count,
            count == n,
            lv.entries.len() == n,
            forall|j: int| 0 <= j < reversed@.len() ==> (#[trigger] reversed@[j])@ == lv.entries[count - 1 - j],
            forall|j: int| 0 <= j < entries@.len() ==> (#[trigger] entries@[j])@ == lv.entries[j],
        decreases reversed@.len(),
    {
        let e = reversed.pop().unwrap();
        entries.push(e);
    }
    let listing = TarListing {
        open_error,
        entries,
        stream_error: if uneven {
            Some(String::from_str("the archive read differently on successive passes"))
        } else {
            stream_error
        },
    };
    proof {
        assert(listing@.entries =~= lv.entries);
    }
    listing
}

/// The Debug rendering (`{:?}`) of a text: quoted, with escapes.
pub uninterp spec fn debug_quoted(s: Seq<char>) -> Seq<char>;

/// `format!("{:?}", s)` for a `&str`: the quoted, escaped rendering.  The
/// result is named by `debug_quoted`.
#[verifier::external_body]
fn debug_str(s: &str) -> (r: String)
    ensures
        r@ == debug_quoted(s@),
{
    format!("{:?}", s)
}

/// The rendering that error messages show for a path: the Debug form of
/// its lossy UTF-8 decoding.
pub open spec fn debug_lossy_text(bytes: Seq<u8>) -> Seq<char> {
    debug_quoted(utf8_lossy(bytes))
}

/// Renders path bytes as `debug_lossy_text` states.
pub(crate) fn debug_lossy(bytes: &[u8]) -> (s: String)
    ensures
        s@ == debug_lossy_text(bytes@),
{
    let text = from_utf8_lossy(bytes);
    debug_str(text.as_str())
}

// ---------------------------------------------------------------------
// The path model.

/// The components of a path: the pieces between `/` separators, empty
/// pieces included (`"a//b/"` has `a`, ``, `b`, ``).
pub open spec fn split_slash(p: Seq<u8>) -> Seq<Seq<u8>>
    decreases p.len(),
{
    if p.len() == 0 {
        seq![Seq::<u8>::empty()]
    } else {
        let s = split_slash(p.drop_last());
        if p.last() == 47u8 {
            s.push(Seq::<u8>::empty())
        } else {
            s.update(s.len() - 1, s.last().push(p.last()))
        }
    }
}

pub open spec fn dot() -> Seq<u8> {
    seq![46u8]
}

pub open spec fn dot_dot() -> Seq<u8> {
    seq![46u8, 46u8]
}

/// A component that names something (neither empty nor `.`).
pub open spec fn kept(c: Seq<u8>) -> bool {
    c.len() != 0 && c != dot()
}

/// The named components joined by `/`.
pub open spec fn join_kept(comps: Seq<Seq<u8>>) -> Seq<u8>
    decreases comps.len(),
{
    if comps.len() == 0 {
        Seq::empty()
    } else {
        let n = join_kept(comps.drop_last());
        let c = comps.last();
        if !kept(c) {
            n
        } else if n.len() == 0 {
            c
        } else {
            n.push(47u8) + c
        }
    }
}

/// The path with empty and `.` components dropped and single separators.
pub open spec fn normalized(p: Seq<u8>) -> Seq<u8> {
    join_kept(split_slash(p))
}

/// Whether some component of the path is `..`.
pub open spec fn has_parent_component(p: Seq<u8>) -> bool {
    exists|i: int| 0 <= i < split_slash(p).len() && #[trigger] split_slash(p)[i] == dot_dot()
}

pub proof fn lemma_split_nonempty(p: Seq<u8>)
    ensures
        split_slash(p).len() >= 1,
    decreases p.len(),
{
    if p.len() > 0 {
        lemma_split_nonempty(p.drop_last());
    }
}

/// The bytes `main`.
pub open spec fn main_name() -> Seq<u8> {
    seq![109u8, 97u8, 105u8, 110u8]
}

/// Whether the bytes are exactly `main`.
pub fn is_main_name(p: &[u8]) -> (r: bool)
    ensures
        r == (p@ == main_name()),
{
    let r = p.len() == 4 && p[0] == 109u8 && p[1] == 97u8 && p[2] == 105u8 && p[3] == 110u8;
    proof {
        if r {
            assert(p@ =~= main_name());
        }
    }
    r
}

/// Splits `p` into its components, in order, and reports whether one is `..`
/// and what the normalized path is.
pub fn normalize_path(p: &[u8]) -> (r: (Vec<u8>, bool))
    ensures
        r.0@ == normalized(p@),
        r.1 == has_parent_component(p@),
{
    let mut normalized_out: Vec<u8> = Vec::new();
    let mut current: Vec<u8> = Vec::new();
    let mut parent = false;
    let mut i: usize = 0;
    proof {
        assert(p@.subrange(0, 0) =~= Seq::<u8>::empty());
    }
    while i < p.len()
        invariant
            i <= p@.len(),
            current@ == split_slash(p@.subrange(0, i as int)).last(),
            normalized_out@ == join_kept(split_slash(p@.subrange(0, i as int)).drop_last()),
            parent == (exists|j: int|
                0 <= j < split_slash(p@.subrange(0, i as int)).len() - 1
                    && #[trigger] split_slash(p@.subrange(0, i as int))[j] == dot_dot()),
        decreases p@.len() - i,
    {
        let ghost pre = p@.subrange(0, i as int);
        let ghost post = p@.subrange(0, i as int + 1);
        proof {
            assert(post.drop_last() =~= pre);
            assert(post.last() == p@[i as int]);
            lemma_split_nonempty(pre);
        }
        let b = p[i];
        if b == 47u8 {
            let ghost sp = split_slash(pre);
            proof {
                assert(split_slash(post) == sp.push(Seq::<u8>::empty()));
                assert(split_slash(post).drop_last() =~= sp);
                assert(sp.drop_last().push(sp.last()) =~= sp);
            }
            let is_parent = current.len() == 2 && current[0] == 46u8 && current[1] == 46u8;
            proof {
                if is_parent {
                    assert(current@ =~= dot_dot());
                } else {
                    assert(current@ != dot_dot());
                }
            }
            let is_dot = current.len() == 1 && current[0] == 46u8;
            proof {
                if is_dot {
                    assert(current@ =~= dot());
                } else {
                    assert(current@ != dot());
                }
            }
            if current.len() != 0 && !is_dot {
                if normalized_out.len() != 0 {
                    normalized_out.push(47u8);
                }
                let mut k: usize = 0;
                let ghost base = normalized_out@;
                while k < current.len()
                    invariant
                        k <= current@.len(),
                        normalized_out@ == base + current@.subrange(0, k as int),
                    decreases current@.len() - k,
                {
                    normalized_out.push(current[k]);
                    k = k + 1;
                    proof {
                        assert(base + current@.subrange(0, k as int) =~= (base + current@.subrange(
                            0,
                            k - 1,
                        )).push(current@[k - 1]));
                    }
                }
                proof {
                    assert(current@.subrange(0, current@.len() as int) =~= current@);
                }
            }
            proof {
                assert(split_slash(post).drop_last().len() == sp.len());
                assert forall|j: int|
                    0 <= j < split_slash(post).len() - 1 implies #[trigger] split_slash(post)[j]
                    == sp[j] by {}
            }
            parent = parent || is_parent;
            current = Vec::new();
            proof {
                assert(split_slash(post).last() =~= Seq::<u8>::empty());
                assert(parent == (exists|j: int|
                    0 <= j < split_slash(post).len() - 1 && #[trigger] split_slash(post)[j]
                        == dot_dot())) by {
                    if parent {
                        if is_parent {
                            assert(split_slash(post)[sp.len() - 1] == dot_dot());
                        } else {
                            let j = choose|j: int|
                                0 <= j < sp.len() - 1 && #[trigger] sp[j] == dot_dot();
                            assert(split_slash(post)[j] == dot_dot());
                        }
                    } else {
                        assert forall|j: int| 0 <= j < split_slash(post).len() - 1 implies #[trigger] split_slash(post)[j]
                            != dot_dot() by {
                            if j < sp.len() - 1 {
                                assert(sp[j] != dot_dot());
                            }
                        }
                    }
                }
            }
        } else {
            let ghost sp = split_slash(pre);
            proof {
                assert(split_slash(post) == sp.update(sp.len() - 1, sp.last().push(b)));
                assert(split_slash(post).drop_last() =~= sp.drop_last());
                assert forall|j: int|
                    0 <= j < split_slash(post).len() - 1 implies #[trigger] split_slash(post)[j]
                    == sp[j] by {}
                assert(parent == (exists|j: int|
                    0 <= j < split_slash(post).len() - 1 && #[trigger] split_slash(post)[j]
                        == dot_dot())) by {
                    if parent {
                        let j = choose|j: int| 0 <= j < sp.len() - 1 && #[trigger] sp[j] == dot_dot();
                        assert(split_slash(post)[j] == dot_dot());
                    }
                }
            }
            current.push(b);
        }
        i = i + 1;
    }
    proof {
        assert(p@.subrange(0, p@.len() as int) =~= p@);
        lemma_split_nonempty(p@);
    }
    let ghost sp = split_slash(p@);
    let is_parent = current.len() == 2 && current[0] == 46u8 && current[1] == 46u8;
    let is_dot = current.len() == 1 && current[0] == 46u8;
    proof {
        if is_parent {
            assert(current@ =~= dot_dot());
        } else {
            assert(current@ != dot_dot());
        }
        if is_dot {
            assert(current@ =~= dot());
        } else {
            assert(current@ != dot());
        }
        assert(sp.drop_last().push(sp.last()) =~= sp);
    }
    if current.len() != 0 && !is_dot {
        if normalized_out.len() != 0 {
            normalized_out.push(47u8);
        }
        let mut k: usize = 0;
        let ghost base = normalized_out@;
        while k < current.len()
            invariant
                k <= current@.len(),
                normalized_out@ == base + current@.subrange(0, k as int),
            decreases current@.len() - k,
        {
            normalized_out.push(current[k]);
            k = k + 1;
            proof {
                assert(base + current@.subrange(0, k as int) =~= (base + current@.subrange(
                    0,
                    k - 1,
                )).push(current@[k - 1]));
            }
        }
        proof {
            assert(current@.subrange(0, current@.len() as int) =~= current@);
        }
    }
    let all_parent = parent || is_parent;
    proof {
        assert(all_parent == has_parent_component(p@)) by {
            if all_parent {
                if is_parent {
                    assert(sp[sp.len() - 1] == dot_dot());
                } else {
                    let j = choose|j: int| 0 <= j < sp.len() - 1 && #[trigger] sp[j] == dot_dot();
                    assert(sp[j] == dot_dot());
                }
            } else {
                assert forall|j: int| 0 <= j < sp.len() implies #[trigger] sp[j] != dot_dot() by {
                    if j < sp.len() - 1 {
                    }
                }
            }
        }
    }
    (normalized_out, all_parent)
}

// ---------------------------------------------------------------------
// Normalized paths are canonical.

/// A component holds no `/`.
pub open spec fn no_slash(c: Seq<u8>) -> bool {
    !c.contains(47u8)
}

/// The named components, in order.
pub open spec fn kept_comps(comps: Seq<Seq<u8>>) -> Seq<Seq<u8>>
    decreases comps.len(),
{
    if comps.len() == 0 {
        comps
    } else if kept(comps.last()) {
        kept_comps(comps.drop_last()).push(comps.last())
    } else {
        kept_comps(comps.drop_last())
    }
}

proof fn lemma_split_parts(p: Seq<u8>)
    ensures
        forall|i: int| 0 <= i < split_slash(p).len() ==> no_slash(#[trigger] split_slash(p)[i]),
        forall|i: int, b: u8| 0 <= i < split_slash(p).len() && #[trigger] split_slash(p)[i].contains(b) ==> p.contains(b),
    decreases p.len(),
{
    lemma_split_nonempty(p);
    if p.len() > 0 {
        let q = p.drop_last();
        let s = split_slash(q);
        lemma_split_parts(q);
        lemma_split_nonempty(q);
        let t = split_slash(p);
        assert forall|i: int| 0 <= i < t.len() implies no_slash(#[trigger] t[i]) by {
            if p.last() == 47u8 {
                if i < s.len() {
                    assert(t[i] == s[i]);
                }
            } else {
                if i < s.len() - 1 {
                    assert(t[i] == s[i]);
                } else {
                    assert(t[i] == s.last().push(p.last()));
                    assert(no_slash(s[s.len() - 1]));
                    if t[i].contains(47u8) {
                        let k = choose|k: int| 0 <= k < t[i].len() && t[i][k] == 47u8;
                        if k < s.last().len() {
                            assert(s.last()[k] == 47u8);
                        }
                    }
                }
            }
        }
        assert forall|i: int, b: u8| 0 <= i < t.len() && #[trigger] t[i].contains(b) implies p.contains(b) by {
            let k = choose|k: int| 0 <= k < t[i].len() && t[i][k] == b;
            if p.last() == 47u8 {
                if i < s.len() {
                    assert(t[i] == s[i]);
                    assert(s[i].contains(b));
                    let j = choose|j: int| 0 <= j < q.len() && q[j] == b;
                    assert(p[j] == b);
                }
            } else if i < s.len() - 1 {
                assert(t[i] == s[i]);
                assert(s[i].contains(b));
                let j = choose|j: int| 0 <= j < q.len() && q[j] == b;
                assert(p[j] == b);
            } else {
                assert(t[i] == s.last().push(p.last()));
                if k < s.last().len() {
                    assert(s[s.len() - 1][k] == b);
                    assert(s[s.len() - 1].contains(b));
                    let j = choose|j: int| 0 <= j < q.len() && q[j] == b;
                    assert(p[j] == b);
                } else {
                    assert(p[p.len() - 1] == b);
                }
            }
        }
    }
}

proof fn lemma_split_single(c: Seq<u8>)
    requires
        no_slash(c),
    ensures
        split_slash(c) == seq![c],
    decreases c.len(),
{
    if c.len() > 0 {
        let d = c.drop_last();
        assert(no_slash(d)) by {
            if d.contains(47u8) {
                let k = choose|k: int| 0 <= k < d.len() && d[k] == 47u8;
                assert(c[k] == 47u8);
            }
        }
        lemma_split_single(d);
        assert(c.last() != 47u8) by {
            assert(c[c.len() - 1] == c.last());
        }
        assert(d.push(c.last()) =~= c);
        assert(c.drop_last() == d);
        let s = split_slash(d);
        assert(s == seq![d]);
        assert(split_slash(c) == s.update(0, d.push(c.last())));
        assert(split_slash(c) =~= seq![c]);
    } else {
        assert(c =~= Seq::<u8>::empty());
    }
}

proof fn lemma_split_append(n: Seq<u8>, c: Seq<u8>)
    requires
        no_slash(c),
    ensures
        split_slash(n.push(47u8) + c) == split_slash(n).push(c),
    decreases c.len(),
{
    if c.len() == 0 {
        assert(c =~= Seq::<u8>::empty());
        assert(n.push(47u8) + c =~= n.push(47u8));
        assert(n.push(47u8).drop_last() =~= n);
        assert(n.push(47u8).last() == 47u8);
    } else {
        let d = c.drop_last();
        assert(no_slash(d)) by {
            if d.contains(47u8) {
                let k = choose|k: int| 0 <= k < d.len() && d[k] == 47u8;
                assert(c[k] == 47u8);
            }
        }
        lemma_split_append(n, d);
        let w = n.push(47u8) + c;
        assert(w.drop_last() =~= n.push(47u8) + d);
        assert(w.last() == c.last());
        assert(c.last() != 47u8) by {
            assert(c[c.len() - 1] == c.last());
        }
        assert(d.push(c.last()) =~= c);
        let s = split_slash(n).push(d);
        assert(split_slash(w) == s.update(s.len() - 1, s.last().push(c.last())));
        assert(split_slash(w) =~= split_slash(n).push(c));
    }
}

proof fn lemma_join_empty_iff(comps: Seq<Seq<u8>>)
    ensures
        (join_kept(comps).len() == 0) == (kept_comps(comps).len() == 0),
    decreases comps.len(),
{
    if comps.len() > 0 {
        lemma_join_empty_iff(comps.drop_last());
    }
}

proof fn lemma_split_join(comps: Seq<Seq<u8>>)
    requires
        forall|i: int| 0 <= i < comps.len() ==> no_slash(#[trigger] comps[i]),
        kept_comps(comps).len() > 0,
    ensures
        split_slash(join_kept(comps)) == kept_comps(comps),
    decreases comps.len(),
{
    let d = comps.drop_last();
    let c = comps.last();
    assert(forall|i: int| 0 <= i < d.len() ==> no_slash(#[trigger] d[i])) by {
        assert forall|i: int| 0 <= i < d.len() implies no_slash(#[trigger] d[i]) by {
            assert(d[i] == comps[i]);
        }
    }
    assert(no_slash(c)) by {
        assert(comps[comps.len() - 1] == c);
    }
    lemma_join_empty_iff(d);
    if kept(c) {
        if join_kept(d).len() == 0 {
            lemma_split_single(c);
            assert(kept_comps(d) =~= Seq::<Seq<u8>>::empty());
            assert(kept_comps(comps) =~= seq![c]);
        } else {
            lemma_split_join(d);
            lemma_split_append(join_kept(d), c);
        }
    } else {
        lemma_split_join(d);
    }
}

proof fn lemma_join_of_kept(comps: Seq<Seq<u8>>)
    ensures
        join_kept(kept_comps(comps)) == join_kept(comps),
    decreases comps.len(),
{
    if comps.len() > 0 {
        lemma_join_of_kept(comps.drop_last());
        let kc = kept_comps(comps);
        if kept(comps.last()) {
            assert(kc.drop_last() =~= kept_comps(comps.drop_last()));
            assert(kc.last() == comps.last());
        }
    }
}

proof fn lemma_kept_comps_from(comps: Seq<Seq<u8>>)
    ensures
        forall|i: int| 0 <= i < kept_comps(comps).len() ==> comps.contains(#[trigger] kept_comps(comps)[i]),
        forall|i: int| 0 <= i < kept_comps(comps).len() ==> kept(#[trigger] kept_comps(comps)[i]),
    decreases comps.len(),
{
    if comps.len() > 0 {
        let d = comps.drop_last();
        lemma_kept_comps_from(d);
        let kc = kept_comps(comps);
        let kd = kept_comps(d);
        assert forall|i: int| 0 <= i < kc.len() implies comps.contains(#[trigger] kc[i]) && kept(kc[i]) by {
            if i < kd.len() {
                assert(kc[i] == kd[i]);
                let j = choose|j: int| 0 <= j < d.len() && d[j] == kd[i];
                assert(comps[j] == kd[i]);
            } else {
                assert(kc[i] == comps[comps.len() - 1]);
            }
        }
    }
}

proof fn lemma_join_bytes(comps: Seq<Seq<u8>>, b: u8)
    requires
        b != 47u8,
        join_kept(comps).contains(b),
    ensures
        exists|i: int| 0 <= i < comps.len() && #[trigger] comps[i].contains(b),
    decreases comps.len(),
{
    let d = comps.drop_last();
    let c = comps.last();
    let n = join_kept(d);
    let j = join_kept(comps);
    let k = choose|k: int| 0 <= k < j.len() && j[k] == b;
    if kept(c) {
        if n.len() == 0 {
            assert(c[k] == b);
            assert(comps[comps.len() - 1].contains(b));
        } else {
            if k < n.len() {
                assert(n[k] == b);
                lemma_join_bytes(d, b);
                let i = choose|i: int| 0 <= i < d.len() && #[trigger] d[i].contains(b);
                assert(comps[i] == d[i]);
            } else if k == n.len() {
                assert(j[k] == 47u8);
            } else {
                assert(c[k - n.len() - 1] == b);
                assert(comps[comps.len() - 1].contains(b));
            }
        }
    } else {
        lemma_join_bytes(d, b);
        let i = choose|i: int| 0 <= i < d.len() && #[trigger] d[i].contains(b);
        assert(comps[i] == d[i]);
    }
}

proof fn lemma_join_first_byte(comps: Seq<Seq<u8>>)
    requires
        forall|i: int| 0 <= i < comps.len() ==> no_slash(#[trigger] comps[i]),
        join_kept(comps).len() > 0,
    ensures
        join_kept(comps)[0] != 47u8,
    decreases comps.len(),
{
    let d = comps.drop_last();
    let c = comps.last();
    assert forall|i: int| 0 <= i < d.len() implies no_slash(#[trigger] d[i]) by {
        assert(d[i] == comps[i]);
    }
    if kept(c) && join_kept(d).len() == 0 {
        assert(no_slash(comps[comps.len() - 1]));
        assert(c.contains(c[0]));
    } else {
        lemma_join_first_byte(d);
    }
}

/// Law: a normalized path is its own normal form.
pub proof fn normalizing_twice_changes_nothing(p: Seq<u8>)
    ensures
        normalized(normalized(p)) == normalized(p),
{
    let comps = split_slash(p);
    lemma_split_parts(p);
    lemma_join_empty_iff(comps);
    if join_kept(comps).len() == 0 {
        let e = Seq::<u8>::empty();
        assert(normalized(p) =~= e);
        assert(split_slash(e) =~= seq![e]);
        assert(seq![e].drop_last() =~= Seq::<Seq<u8>>::empty());
        assert(join_kept(Seq::<Seq<u8>>::empty()) == e);
        assert(seq![e].last() == e);
        assert(!kept(e));
        assert(join_kept(seq![e]) =~= e);
    } else {
        lemma_split_join(comps);
        lemma_join_of_kept(comps);
    }
}

/// The facts about a normalized path that the entry checks look at: it
/// does not start with `/`, its bytes other than `/` come from the raw
/// path, and its components are named components of the raw path.
pub proof fn lemma_normalized_shape(p: Seq<u8>)
    requires
        normalized(p).len() > 0,
    ensures
        normalized(p)[0] != 47u8,
        forall|b: u8| b != 47u8 && #[trigger] normalized(p).contains(b) ==> p.contains(b),
        forall|i: int|
            0 <= i < split_slash(normalized(p)).len() ==> split_slash(p).contains(#[trigger] split_slash(normalized(p))[i]),
{
    let comps = split_slash(p);
    lemma_split_parts(p);
    lemma_join_first_byte(comps);
    assert forall|b: u8| b != 47u8 && #[trigger] normalized(p).contains(b) implies p.contains(b) by {
        lemma_join_bytes(comps, b);
        let i = choose|i: int| 0 <= i < comps.len() && #[trigger] comps[i].contains(b);
    }
    lemma_join_empty_iff(comps);
    lemma_split_join(comps);
    lemma_kept_comps_from(comps);
}

} // verus!

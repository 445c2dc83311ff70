//! Where the hypervisor keeps its base image files, under its data root.
//! Paths are texts with `/` separators.

use vstd::prelude::*;
use crate::text::{chars_of, concat_str, push_str};

verus! {

/// The Alpine release the base root filesystem is built from.
pub const ALPINE_VERSION: &'static str = "3.24.1";

/// `base` joined with `name` as `PathBuf::join` does on Unix: an
/// absolute `name` replaces the base; otherwise a `/` separates them
/// unless the base is empty or already ends with one.
pub open spec fn path_join(base: Seq<char>, name: Seq<char>) -> Seq<char> {
    if name.len() > 0 && name[0] == '/' {
        name
    } else if base.len() == 0 {
        name
    } else if base.last() == '/' {
        base + name
    } else {
        base + "/"@ + name
    }
}

/// Joins a path and a name.
pub fn join_path(base: &str, name: &str) -> (p: String)
    ensures
        p@ == path_join(base@, name@),
{
    let n = chars_of(name);
    if n.len() > 0 && n[0] == '/' {
        return String::from_str(name);
    }
    let b = chars_of(base);
    if b.len() == 0 {
        String::from_str(name)
    } else if b[b.len() - 1] == '/' {
        concat_str(base, name)
    } else {
        push_str(concat_str(base, "/"), name)
    }
}

/// The directory of downloaded images: `{data root}/images`.
pub fn images_dir(data_root: &str) -> (p: String)
    ensures
        p@ == path_join(data_root@, "images"@),
{
    join_path(data_root, "images")
}

/// The name of the Alpine root filesystem archive for an architecture.
pub open spec fn alpine_archive_name(arch: Seq<char>) -> Seq<char> {
    "alpine-minirootfs-3.24.1-"@ + arch + ".tar.gz"@
}

/// The downloaded Alpine archive: `{images}/alpine-minirootfs-3.24.1-{arch}.tar.gz`.
pub fn alpine_archive_path(data_root: &str, arch: &str) -> (p: String)
    ensures
        p@ == path_join(path_join(data_root@, "images"@), alpine_archive_name(arch@)),
{
    let name = push_str(concat_str("alpine-minirootfs-3.24.1-", arch), ".tar.gz");
    let dir = images_dir(data_root);
    join_path(dir.as_str(), name.as_str())
}

/// Where the Alpine archive for an architecture is downloaded from.
pub fn alpine_download_url(arch: &str) -> (url: String)
    ensures
        url@ == "https://dl-cdn.alpinelinux.org/alpine/v3.24/releases/"@ + arch@ + "/"@ + alpine_archive_name(arch@),
{
    let u = concat_str("https://dl-cdn.alpinelinux.org/alpine/v3.24/releases/", arch);
    let u = push_str(push_str(push_str(u, "/"), "alpine-minirootfs-3.24.1-"), arch);
    let u = push_str(u, ".tar.gz");
    proof {
        assert(u@ =~= "https://dl-cdn.alpinelinux.org/alpine/v3.24/releases/"@ + arch@ + "/"@ + alpine_archive_name(
            arch@,
        ));
    }
    u
}

/// The extracted base root filesystem: `{data root}/base_rootfs`.
pub fn base_rootfs_path(data_root: &str) -> (p: String)
    ensures
        p@ == path_join(data_root@, "base_rootfs"@),
{
    join_path(data_root, "base_rootfs")
}

/// The Alpine architecture name for the machine's architecture; only
/// `x86_64` and `aarch64` are supported.
pub fn alpine_arch(machine: &str) -> (r: Option<&'static str>)
    ensures
        if machine@ == "x86_64"@ {
            r matches Some(a) && a@ == "x86_64"@
        } else if machine@ == "aarch64"@ {
            r matches Some(a) && a@ == "aarch64"@
        } else {
            r is None
        },
{
    if crate::text::str_eq(machine, "x86_64") {
        Some("x86_64")
    } else if crate::text::str_eq(machine, "aarch64") {
        Some("aarch64")
    } else {
        None
    }
}

} // verus!

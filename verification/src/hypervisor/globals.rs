//! Paths derived from the hypervisor's global settings.

use vstd::prelude::*;
use crate::hypervisor::image::{join_path, path_join};
use crate::text::concat_str;

verus! {

/// The console socket of a container: `{sockets dir}/{container_id}.sock`.
pub fn console_socket_path(sockets_dir: &str, container_id: &str) -> (p: String)
    ensures
        p@ == path_join(sockets_dir@, container_id@ + ".sock"@),
{
    let name = concat_str(container_id, ".sock");
    join_path(sockets_dir, name.as_str())
}

} // verus!

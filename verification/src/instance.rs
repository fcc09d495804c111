//! One reader at a time: a second start forwards its document to the first.
use vstd::prelude::*;
use vstd::string::*;
use crate::cli::{is_markdown_path, markdown_path};
use crate::path::{join_path, path_join};
use crate::text::{lemma_trim_idempotent, trim, trim_seq};

verus! {

/// Held by the first reader while it runs.
pub struct InstanceGuard;

/// Whether this start is the first reader, or forwarded its document to it.
pub enum InstanceRole {
    Primary(InstanceGuard),
    Forwarded,
}

/// The role of this start: the first reader when it could listen for
/// others, or when it could not forward its document; forwarded otherwise.
pub fn instance_role(listening: bool, forwarded: bool) -> (r: InstanceRole)
    ensures
        r is Forwarded <==> (!listening && forwarded),
{
    if listening {
        InstanceRole::Primary(InstanceGuard)
    } else if forwarded {
        InstanceRole::Forwarded
    } else {
        InstanceRole::Primary(InstanceGuard)
    }
}

/// The reader's directory inside the temporary directory.
pub open spec fn ipc_dir_of(temp_dir: Seq<char>) -> Seq<char> {
    path_join(temp_dir, "md-reader"@)
}

/// The reader's directory inside the temporary directory.
pub fn ipc_dir(temp_dir: &str) -> (r: String)
    ensures
        r@ == ipc_dir_of(temp_dir@),
{
    join_path(temp_dir, "md-reader")
}

/// The file in which a forwarded document's path waits for the first reader.
pub fn pending_path(temp_dir: &str) -> (r: String)
    ensures
        r@ == path_join(ipc_dir_of(temp_dir@), "pending.mdpath"@),
{
    let dir = ipc_dir(temp_dir);
    join_path(dir.as_str(), "pending.mdpath")
}

/// The lock file that earlier versions left behind.
pub fn legacy_lock_path(temp_dir: &str) -> (r: String)
    ensures
        r@ == path_join(ipc_dir_of(temp_dir@), "md-reader.lock"@),
{
    let dir = ipc_dir(temp_dir);
    join_path(dir.as_str(), "md-reader.lock")
}

/// A forwarded path, trimmed, when it names a Markdown file.
pub fn forwarded_markdown_path(raw: &str) -> (r: Option<String>)
    ensures
        markdown_path(trim_seq(raw@)) ==> (r matches Some(p) && p@ == trim_seq(raw@)),
        !markdown_path(trim_seq(raw@)) ==> r is None,
{
    let candidate = trim(raw);
    if is_markdown_path(candidate.as_str()) {
        Some(candidate)
    } else {
        None
    }
}

/// The pending-path round trip: a path that was accepted when forwarded,
/// written to the pending file as accepted and read back from it, is
/// accepted again and unchanged.
pub proof fn lemma_forwarded_path_round_trip(raw: Seq<char>)
    requires
        markdown_path(trim_seq(raw)),
    ensures
        markdown_path(trim_seq(trim_seq(raw))),
        trim_seq(trim_seq(raw)) == trim_seq(raw),
{
    lemma_trim_idempotent(raw);
}

} // verus!

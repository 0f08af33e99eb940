//! What `folder sync` prints: the dry-run line of a message, progress of
//! the write pass, and the closing summaries.

use vstd::prelude::*;
use crate::text::{concat_str, join_strings, join_sep};
use crate::tag_set::{views, TagSet};
use crate::folder_tags::TagUpdate;
use crate::numfmt::{decimal, decimal_string};

verus! {

/// How many rewritten messages go into one commit.
pub const SYNC_COMMIT_EVERY: usize = 500;

/// The dry-run line of a message: what is added, what is removed, and the
/// tags it ends up with (in ascending order).
pub open spec fn dry_run_text(path: Seq<char>, add: Seq<Seq<char>>, remove: Seq<Seq<char>>, result: Seq<Seq<char>>) -> Seq<char> {
    path + ": +["@ + join_sep(add, ", "@) + "] -["@ + join_sep(remove, ", "@) + "] → ["@ + join_sep(result, ", "@) + "]"@
}

pub fn dry_run_line(path: &str, u: &TagUpdate) -> (r: String)
    requires
        u.new_tags.wf(),
    ensures
        r@ == dry_run_text(path@, views(u.to_add@), views(u.to_remove@), u.new_tags.seq()),
{
    let a = join_strings(&u.to_add, ", ");
    let d = join_strings(&u.to_remove, ", ");
    let n = join_strings(u.new_tags.as_vec(), ", ");
    let s = concat_str(path, ": +[");
    let s = concat_str(s.as_str(), a.as_str());
    let s = concat_str(s.as_str(), "] -[");
    let s = concat_str(s.as_str(), d.as_str());
    let s = concat_str(s.as_str(), "] → [");
    let s = concat_str(s.as_str(), n.as_str());
    concat_str(s.as_str(), "]")
}

pub open spec fn dry_run_summary_text(n: nat) -> Seq<char> {
    "Dry-run: "@ + decimal(n) + " message(s) would be updated. (No seeds harmed.)"@
}

pub fn dry_run_summary(n: usize) -> (r: String)
    ensures
        r@ == dry_run_summary_text(n as nat),
{
    let d = decimal_string(n as u128);
    let s = concat_str("Dry-run: ", d.as_str());
    concat_str(s.as_str(), " message(s) would be updated. (No seeds harmed.)")
}

/// After the `done`-th rewrite: whether to commit now.
pub fn commit_due(done: usize) -> (r: bool)
    ensures
        r == (done % SYNC_COMMIT_EVERY == 0),
{
    done % SYNC_COMMIT_EVERY == 0
}

pub open spec fn committed_text(done: nat, total: nat) -> Seq<char> {
    "  🐹 Committed "@ + decimal(done) + "/"@ + decimal(total) + " updates..."@
}

pub fn committed_line(done: usize, total: usize) -> (r: String)
    ensures
        r@ == committed_text(done as nat, total as nat),
{
    let a = decimal_string(done as u128);
    let b = decimal_string(total as u128);
    let s = concat_str("  🐹 Committed ", a.as_str());
    let s = concat_str(s.as_str(), "/");
    let s = concat_str(s.as_str(), b.as_str());
    concat_str(s.as_str(), " updates...")
}

pub open spec fn synced_text(n: nat) -> Seq<char> {
    "✅ Folder tags & flags synchronised: "@ + decimal(n)
        + " message(s) updated. The hamster deserves a sunflower seed."@
}

pub fn synced_message(n: usize) -> (r: String)
    ensures
        r@ == synced_text(n as nat),
{
    let d = decimal_string(n as u128);
    let s = concat_str("✅ Folder tags & flags synchronised: ", d.as_str());
    concat_str(s.as_str(), " message(s) updated. The hamster deserves a sunflower seed.")
}

} // verus!

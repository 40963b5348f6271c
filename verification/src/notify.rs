use vstd::prelude::*;
use crate::feed::Post;
use crate::store::clone_string;
use vstd::string::StringExecFns;

verus! {

/// Everything the platform's notification renderer is asked to show for
/// one post: the descriptor is built here; showing it and waiting for the
/// click is the caller's work.
#[derive(Debug)]
pub struct NotificationSpec {
    pub summary: String,
    pub body: String,
    pub icon_ref: String,
    pub action: String,
    pub timeout_ms: u32,
}

/// The descriptor a post's notification shows: the item's title and
/// description, the resolved icon as a local-file reference, one action
/// labelled "default", and a presentation timeout of a few seconds.
pub fn build_notification(post: &Post) -> (r: NotificationSpec)
    ensures
        r.summary@ == post.title@,
        r.body@ == post.description@,
        r.icon_ref@ == "file://"@ + post.icon@,
        r.action@ == "default"@,
        r.timeout_ms == 3000,
{
    let icon_ref = String::from_str("file://").concat(post.icon.as_str());
    NotificationSpec {
        summary: clone_string(&post.title),
        body: clone_string(&post.description),
        icon_ref,
        action: String::from_str("default"),
        timeout_ms: 3000,
    }
}

} // verus!

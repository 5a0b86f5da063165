//! The per-session bridge network of `hm dev up`.

use vstd::prelude::*;

use crate::dev::naming::{network_name, DRIVER_LOCAL, LABEL_DRIVER, LABEL_SESSION, LABEL_WORKTREE};
use crate::smap::StrMap;

verus! {

/// A session's bridge network.
#[derive(Clone, Debug)]
pub struct Network {
    pub name: String,
}

/// The labels a session network carries: its worktree, its session and
/// the local driver.
pub open spec fn network_labels_ok(labels: &StrMap<String>, worktree_hash: Seq<char>, session: Seq<char>) -> bool {
    &&& labels.as_map().dom() == set![LABEL_WORKTREE@, LABEL_SESSION@, LABEL_DRIVER@]
    &&& labels.as_map()[LABEL_WORKTREE@]@ == worktree_hash
    &&& labels.as_map()[LABEL_SESSION@]@ == session
    &&& labels.as_map()[LABEL_DRIVER@]@ == DRIVER_LOCAL@
}

/// The network to create for a session, with the labels to create it with.
pub fn session_network(worktree_hash: &str, session: &str) -> (r: (Network, StrMap<String>))
    ensures
        r.0.name@ == "hm-"@ + worktree_hash@ + "-"@ + session@,
        network_labels_ok(&r.1, worktree_hash@, session@),
{
    let name = network_name(worktree_hash, session);
    let mut labels: StrMap<String> = StrMap::new();
    labels.insert(LABEL_WORKTREE.to_owned(), worktree_hash.to_owned());
    labels.insert(LABEL_SESSION.to_owned(), session.to_owned());
    labels.insert(LABEL_DRIVER.to_owned(), DRIVER_LOCAL.to_owned());
    proof {
        reveal_strlit("harmont.worktree");
        reveal_strlit("harmont.session");
        reveal_strlit("harmont.driver");
        assert(LABEL_WORKTREE@.len() == 16 && LABEL_SESSION@.len() == 15 && LABEL_DRIVER@.len() == 14);
        assert(labels.as_map().dom() =~= set![LABEL_WORKTREE@, LABEL_SESSION@, LABEL_DRIVER@]);
    }
    (Network { name }, labels)
}

} // verus!

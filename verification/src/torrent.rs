//! The torrent front-end stub: it validates magnet links and tracks what
//! was added, pending a real session backend.

use vstd::prelude::*;
use vstd::string::StringExecFns;
use vstd::string::StrSliceExecFns;
use crate::error::CoreError;
use crate::strutil::{match_at, str_chars, is_match_at, string_from_chars};

verus! {

/// A magnet link starts with the magnet scheme and query marker.
pub open spec fn spec_is_magnet(s: Seq<char>) -> bool {
    match_at(s, "magnet:?"@, 0)
}

/// The placeholder torrent engine: magnet links are validated and
/// remembered; pause and resume are accepted without effect.
#[derive(Debug)]
pub struct TorrentEngine {
    active_torrents: Vec<String>,
}

impl TorrentEngine {
    /// An engine with no torrents.
    pub fn new() -> (e: TorrentEngine)
        ensures
            e.torrents().len() == 0,
    {
        TorrentEngine { active_torrents: Vec::new() }
    }

    /// What was added so far, in order.
    pub closed spec fn torrents(&self) -> Seq<Seq<char>> {
        self.active_torrents.deep_view()
    }

    /// Add a magnet link: a link without the magnet prefix is an
    /// invalid-state error; a valid one is remembered and acknowledged
    /// with a placeholder identifier.
    pub fn add_magnet(&mut self, magnet_link: &str, save_path: &str) -> (r: Result<
        String,
        CoreError,
    >)
        ensures
            match r {
                Ok(_) => spec_is_magnet(magnet_link@) && final(self).torrents() == old(
                    self,
                ).torrents().push(magnet_link@),
                Err(e) => !spec_is_magnet(magnet_link@) && e is InvalidState && *final(self)
                    == *old(self),
            },
    {
        let link = str_chars(magnet_link);
        let prefix = str_chars("magnet:?");
        proof {
            reveal_strlit("magnet:?");
            assert(prefix@ =~= "magnet:?"@);
        }
        if !is_match_at(&link, &prefix, 0) {
            return Err(CoreError::InvalidState(String::from_str("invalid magnet link")));
        }
        let ghost pre = self.active_torrents.deep_view();
        self.active_torrents.push(string_from_chars(&link));
        proof {
            assert forall|k: int| 0 <= k < pre.len() implies #[trigger] self.active_torrents
                .deep_view()[k] == pre[k] by {
                assert(self.active_torrents.deep_view()[k] == self.active_torrents@[k]@);
            }
            assert(self.active_torrents.deep_view()[pre.len() as int] == self.active_torrents@[
                pre.len() as int
            ]@);
            assert(self.active_torrents.deep_view() =~= pre.push(magnet_link@));
        }
        Ok(String::from_str("torrent_task_id_placeholder"))
    }

    /// Pause is accepted and changes nothing in this stub.
    pub fn pause_torrent(&mut self, _id: &str) -> (r: Result<(), CoreError>)
        ensures
            r is Ok,
            *final(self) == *old(self),
    {
        Ok(())
    }

    /// Resume is accepted and changes nothing in this stub.
    pub fn resume_torrent(&mut self, _id: &str) -> (r: Result<(), CoreError>)
        ensures
            r is Ok,
            *final(self) == *old(self),
    {
        Ok(())
    }
}

} // verus!

//! The table of broadcasts: one row per broadcaster and channel, which holds
//! the channel's current version.

use crate::db::models::{Broadcast, BroadcastView};
use vstd::prelude::*;
use vstd::string::*;

verus! {

/// Whether the rows hold the broadcast of the given broadcaster and channel.
pub open spec fn has_broadcast(
    rows: Seq<BroadcastView>,
    broadcaster_id: Seq<char>,
    bchannel_id: Seq<char>,
) -> bool {
    exists|i: int| 0 <= i < rows.len() && (#[trigger] rows[i]).is_for(broadcaster_id, bchannel_id)
}

/// A place at which the rows hold the broadcast of the given broadcaster and
/// channel, if they hold it.
pub open spec fn index_of_broadcast(
    rows: Seq<BroadcastView>,
    broadcaster_id: Seq<char>,
    bchannel_id: Seq<char>,
) -> int {
    choose|i: int| 0 <= i < rows.len() && (#[trigger] rows[i]).is_for(broadcaster_id, bchannel_id)
}

/// No two rows are of one broadcaster and channel.
pub open spec fn broadcasts_unique(rows: Seq<BroadcastView>) -> bool {
    forall|i: int, j: int|
        0 <= i < j < rows.len() ==> !(#[trigger] rows[i]).is_for(
            (#[trigger] rows[j]).broadcaster_id,
            rows[j].bchannel_id,
        )
}

/// The version that the rows hold for the given broadcaster and channel.
pub open spec fn spec_version(
    rows: Seq<BroadcastView>,
    broadcaster_id: Seq<char>,
    bchannel_id: Seq<char>,
) -> Option<Seq<char>> {
    if has_broadcast(rows, broadcaster_id, bchannel_id) {
        Some(rows[index_of_broadcast(rows, broadcaster_id, bchannel_id)].version)
    } else {
        None
    }
}

/// The rows after a version was set: the row of the broadcaster and channel
/// holds the version, be it an old row or a new one at the end.
pub open spec fn spec_upsert(
    rows: Seq<BroadcastView>,
    broadcaster_id: Seq<char>,
    bchannel_id: Seq<char>,
    version: Seq<char>,
) -> Seq<BroadcastView> {
    let row = BroadcastView { broadcaster_id, bchannel_id, version };
    if has_broadcast(rows, broadcaster_id, bchannel_id) {
        rows.update(index_of_broadcast(rows, broadcaster_id, bchannel_id), row)
    } else {
        rows.push(row)
    }
}

/// The views of rows.
pub open spec fn rows_view(rows: Seq<Broadcast>) -> Seq<BroadcastView> {
    Seq::new(rows.len(), |i: int| rows[i]@)
}

/// A table of broadcasts in memory.
#[derive(Debug)]
pub struct VersionStore {
    rows: Vec<Broadcast>,
}

impl View for VersionStore {
    type V = Seq<BroadcastView>;

    /// The rows in the order in which they were created.
    closed spec fn view(&self) -> Seq<BroadcastView> {
        rows_view(self.rows@)
    }
}

impl VersionStore {
    #[verifier::type_invariant]
    closed spec fn inv(&self) -> bool {
        broadcasts_unique(self@)
    }

    /// An empty table.
    pub fn new() -> (store: VersionStore)
        ensures
            store@ == Seq::<BroadcastView>::empty(),
    {
        let store = VersionStore { rows: Vec::new() };
        assert(store@ =~= Seq::empty());
        store
    }

    /// The place of the row of the given broadcaster and channel.
    fn position(&self, broadcaster_id: &str, bchannel_id: &str) -> (found: Option<usize>)
        ensures
            broadcasts_unique(self@),
            match found {
                Some(i) => i < self@.len() && self@[i as int].is_for(broadcaster_id@, bchannel_id@)
                    && has_broadcast(self@, broadcaster_id@, bchannel_id@) && index_of_broadcast(
                    self@,
                    broadcaster_id@,
                    bchannel_id@,
                ) == i,
                None => !has_broadcast(self@, broadcaster_id@, bchannel_id@),
            },
    {
        proof {
            use_type_invariant(self);
        }
        let broadcaster = String::from_str(broadcaster_id);
        let bchannel = String::from_str(bchannel_id);
        let mut i: usize = 0;
        while i < self.rows.len()
            invariant
                i <= self.rows@.len(),
                broadcaster@ == broadcaster_id@,
                bchannel@ == bchannel_id@,
                broadcasts_unique(self@),
                forall|j: int|
                    0 <= j < i ==> !(#[trigger] self@[j]).is_for(broadcaster_id@, bchannel_id@),
            decreases self.rows@.len() - i,
        {
            if self.rows[i].broadcaster_id == broadcaster && self.rows[i].bchannel_id == bchannel {
                proof {
                    assert(self@[i as int].is_for(broadcaster_id@, bchannel_id@));
                    assert(has_broadcast(self@, broadcaster_id@, bchannel_id@));
                    let at = index_of_broadcast(self@, broadcaster_id@, bchannel_id@);
                    if at < i {
                        assert(!self@[at].is_for(broadcaster_id@, bchannel_id@));
                    } else if i < at {
                        assert(!self@[i as int].is_for(
                            self@[at].broadcaster_id,
                            self@[at].bchannel_id,
                        ));
                    }
                }
                return Some(i);
            }
            i = i + 1;
        }
        None
    }

    /// Sets the version of a channel of a broadcaster, and tells whether
    /// that made a new row: `false` where the row was there, whatever
    /// version it held.
    pub fn upsert(&mut self, broadcaster_id: &str, bchannel_id: &str, version: &str) -> (created:
        bool)
        ensures
            final(self)@ == spec_upsert(old(self)@, broadcaster_id@, bchannel_id@, version@),
            created == !has_broadcast(old(self)@, broadcaster_id@, bchannel_id@),
            broadcasts_unique(old(self)@),
            broadcasts_unique(final(self)@),
    {
        let found = self.position(broadcaster_id, bchannel_id);
        proof {
            lemma_upsert_unique(self@, broadcaster_id@, bchannel_id@, version@);
        }
        let ghost before = self@;
        let row = Broadcast {
            broadcaster_id: String::from_str(broadcaster_id),
            bchannel_id: String::from_str(bchannel_id),
            version: String::from_str(version),
        };
        let mut rows: Vec<Broadcast> = Vec::new();
        assert(rows_view(rows@) =~= Seq::<BroadcastView>::empty());
        std::mem::swap(&mut self.rows, &mut rows);
        let created = match found {
            Some(i) => {
                rows[i] = row;
                false
            },
            None => {
                rows.push(row);
                true
            },
        };
        assert(rows_view(rows@) =~= spec_upsert(before, broadcaster_id@, bchannel_id@, version@));
        self.rows = rows;
        created
    }

    /// The version of a channel of a broadcaster, if one was set.
    pub fn version(&self, broadcaster_id: &str, bchannel_id: &str) -> (version: Option<&String>)
        ensures
            match version {
                Some(version) => spec_version(self@, broadcaster_id@, bchannel_id@) == Some(
                    version@,
                ),
                None => spec_version(self@, broadcaster_id@, bchannel_id@) is None,
            },
    {
        match self.position(broadcaster_id, bchannel_id) {
            Some(i) => Some(&self.rows[i].version),
            None => None,
        }
    }

    /// All rows, in the order in which they were created.
    pub fn rows(&self) -> (rows: &Vec<Broadcast>)
        ensures
            rows_view(rows@) == self@,
            broadcasts_unique(self@),
    {
        proof {
            use_type_invariant(self);
        }
        &self.rows
    }
}

/// Setting a version keeps the rows of one broadcaster and channel apart.
pub proof fn lemma_upsert_unique(
    rows: Seq<BroadcastView>,
    broadcaster_id: Seq<char>,
    bchannel_id: Seq<char>,
    version: Seq<char>,
)
    requires
        broadcasts_unique(rows),
    ensures
        broadcasts_unique(spec_upsert(rows, broadcaster_id, bchannel_id, version)),
{
    let after = spec_upsert(rows, broadcaster_id, bchannel_id, version);
    let at = if has_broadcast(rows, broadcaster_id, bchannel_id) {
        index_of_broadcast(rows, broadcaster_id, bchannel_id)
    } else {
        rows.len() as int
    };
    assert forall|i: int, j: int| 0 <= i < j < after.len() implies !(#[trigger] after[i]).is_for(
        (#[trigger] after[j]).broadcaster_id,
        after[j].bchannel_id,
    ) by {
        if i != at && j != at {
            assert(!rows[i].is_for(rows[j].broadcaster_id, rows[j].bchannel_id));
        } else if i == at {
            if has_broadcast(rows, broadcaster_id, bchannel_id) {
                assert(!rows[i].is_for(rows[j].broadcaster_id, rows[j].bchannel_id));
            }
        } else {
            if has_broadcast(rows, broadcaster_id, bchannel_id) {
                assert(!rows[i].is_for(rows[j].broadcaster_id, rows[j].bchannel_id));
            } else {
                assert(!rows[i].is_for(broadcaster_id, bchannel_id));
            }
        }
    }
}

} // verus!

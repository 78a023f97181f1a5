//! A broadcast, and the two kinds of authorized callers.

use crate::db::store::{has_broadcast, rows_view, spec_upsert, VersionStore};
use crate::error::HandlerResult;
use crate::string_map::{pairs_insert, StringMap};
use vstd::prelude::*;
use vstd::string::*;

verus! {

/// The current version of one channel of one broadcaster.
#[derive(Debug)]
pub struct Broadcast {
    pub broadcaster_id: String,
    pub bchannel_id: String,
    pub version: String,
}

/// A [`Broadcast`] with its strings as sequences of characters.
pub struct BroadcastView {
    pub broadcaster_id: Seq<char>,
    pub bchannel_id: Seq<char>,
    pub version: Seq<char>,
}

impl View for Broadcast {
    type V = BroadcastView;

    open spec fn view(&self) -> BroadcastView {
        BroadcastView {
            broadcaster_id: self.broadcaster_id@,
            bchannel_id: self.bchannel_id@,
            version: self.version@,
        }
    }
}

impl BroadcastView {
    /// The id under which the broadcast is published.
    pub open spec fn id(self) -> Seq<char> {
        broadcast_id(self.broadcaster_id, self.bchannel_id)
    }

    /// Whether this is the broadcast of the given broadcaster and channel.
    pub open spec fn is_for(self, broadcaster_id: Seq<char>, bchannel_id: Seq<char>) -> bool {
        self.broadcaster_id == broadcaster_id && self.bchannel_id == bchannel_id
    }
}

/// The id under which a broadcast is published: the broadcaster's id, a
/// slash, the channel's id.
pub open spec fn broadcast_id(broadcaster_id: Seq<char>, bchannel_id: Seq<char>) -> Seq<char> {
    broadcaster_id + seq!['/'] + bchannel_id
}

impl Broadcast {
    pub fn id(&self) -> (id: String)
        ensures
            id@ == self@.id(),
    {
        proof {
            reveal_strlit("/");
            assert("/"@ =~= seq!['/']);
        }
        let mut id = self.broadcaster_id.clone();
        id.append("/");
        id.append(self.bchannel_id.as_str());
        id
    }
}

/// An authorized broadcaster
#[derive(Debug)]
pub struct Broadcaster {
    pub id: String,
}

impl Broadcaster {
    pub fn new(id: String) -> (broadcaster: Broadcaster)
        ensures
            broadcaster.id == id,
    {
        Broadcaster { id }
    }

    /// Broadcast a new version
    ///
    /// Returns:
    ///
    /// Ok(true) if this Broadcast did not have a current version and one was
    /// successfully created.
    ///
    /// Ok(false) if this Broadcast had an existing version that was
    /// successfully modified to the new version.
    pub fn broadcast_new_version(
        self,
        conn: &mut VersionStore,
        bchannel_id: &str,
        version: &str,
    ) -> (r: HandlerResult<bool>)
        ensures
            r matches Ok(created) && created == !has_broadcast(old(conn)@, self.id@, bchannel_id@),
            final(conn)@ == spec_upsert(old(conn)@, self.id@, bchannel_id@, version@),
    {
        Ok(conn.upsert(self.id.as_str(), bchannel_id, version))
    }

    /// Whether a write made a new broadcast, by the number of rows that the
    /// database reports as affected: one for a row inserted, another number
    /// for a row that was there.
    pub fn created(affected_rows: usize) -> (created: bool)
        ensures
            created == (affected_rows == 1),
    {
        affected_rows == 1
    }
}

/// An authorized reader of broadcasts
#[derive(Debug)]
pub struct Reader {
    pub id: String,
}

impl Reader {
    pub fn new(id: String) -> (reader: Reader)
        ensures
            reader.id == id,
    {
        Reader { id }
    }

    /// The snapshot of all broadcasts: the version of each, by its id.
    pub fn read_broadcasts(&self, conn: &VersionStore) -> (r: HandlerResult<StringMap>)
        ensures
            r matches Ok(broadcasts) && broadcasts@ == spec_snapshot(conn@),
    {
        Ok(snapshot(conn.rows()))
    }
}

/// The snapshot of rows: each row's version under the row's id, in the
/// order of the rows. Where two rows have one id, the later one counts.
pub open spec fn spec_snapshot(rows: Seq<BroadcastView>) -> Seq<(Seq<char>, Seq<char>)>
    decreases rows.len(),
{
    if rows.len() == 0 {
        Seq::empty()
    } else {
        pairs_insert(spec_snapshot(rows.drop_last()), rows.last().id(), rows.last().version)
    }
}

/// The snapshot of rows that were read from the table.
pub fn snapshot(rows: &Vec<Broadcast>) -> (broadcasts: StringMap)
    ensures
        broadcasts@ == spec_snapshot(rows_view(rows@)),
{
    let mut broadcasts = StringMap::new();
    let mut i: usize = 0;
    assert(rows_view(rows@).take(0) =~= Seq::empty());
    while i < rows.len()
        invariant
            i <= rows@.len(),
            broadcasts@ == spec_snapshot(rows_view(rows@).take(i as int)),
        decreases rows@.len() - i,
    {
        proof {
            let upto = rows_view(rows@).take(i + 1);
            assert(upto.drop_last() =~= rows_view(rows@).take(i as int));
            assert(upto.last() == rows@[i as int]@);
        }
        broadcasts.insert(rows[i].id(), rows[i].version.clone());
        i = i + 1;
    }
    assert(rows_view(rows@).take(i as int) =~= rows_view(rows@));
    broadcasts
}

} // verus!

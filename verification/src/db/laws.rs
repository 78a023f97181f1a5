//! What holds of every table of broadcasts, whatever was written to it.

use crate::db::models::{broadcast_id, spec_snapshot, BroadcastView};
use crate::db::store::{
    broadcasts_unique, has_broadcast, index_of_broadcast, lemma_upsert_unique, spec_upsert,
    spec_version,
};
use crate::string_map::{has_key, index_of_key, keys_unique, map_of};
use vstd::prelude::*;

verus! {

/// Whether the characters hold no slash.
pub open spec fn slash_free(id: Seq<char>) -> bool {
    forall|p: int| 0 <= p < id.len() ==> id[p] != '/'
}

/// No broadcaster id of the rows holds a slash.
pub open spec fn broadcasters_slash_free(rows: Seq<BroadcastView>) -> bool {
    forall|i: int| 0 <= i < rows.len() ==> slash_free((#[trigger] rows[i]).broadcaster_id)
}

/// No two rows have one id.
pub open spec fn ids_unique(rows: Seq<BroadcastView>) -> bool {
    forall|i: int, j: int| 0 <= i < j < rows.len() ==> (#[trigger] rows[i]).id() != (
    #[trigger] rows[j]).id()
}

/// The id of a broadcast tells its broadcaster and its channel, where no
/// broadcaster id holds a slash.
pub proof fn lemma_broadcast_id_injective(
    broadcaster_id: Seq<char>,
    bchannel_id: Seq<char>,
    other_broadcaster_id: Seq<char>,
    other_bchannel_id: Seq<char>,
)
    requires
        slash_free(broadcaster_id),
        slash_free(other_broadcaster_id),
        broadcast_id(broadcaster_id, bchannel_id) == broadcast_id(
            other_broadcaster_id,
            other_bchannel_id,
        ),
    ensures
        broadcaster_id == other_broadcaster_id,
        bchannel_id == other_bchannel_id,
{
    let id = broadcast_id(broadcaster_id, bchannel_id);
    let other = broadcast_id(other_broadcaster_id, other_bchannel_id);
    let n = broadcaster_id.len() as int;
    let m = other_broadcaster_id.len() as int;
    assert(id[n] == '/');
    assert(other[m] == '/');
    if n < m {
        assert(other[n] == other_broadcaster_id[n]);
    }
    if m < n {
        assert(id[m] == broadcaster_id[m]);
    }
    assert(broadcaster_id =~= other_broadcaster_id) by {
        assert forall|p: int| 0 <= p < n implies broadcaster_id[p] == other_broadcaster_id[p] by {
            assert(id[p] == broadcaster_id[p]);
            assert(other[p] == other_broadcaster_id[p]);
        }
    }
    assert(id.len() == n + 1 + bchannel_id.len());
    assert(other.len() == m + 1 + other_bchannel_id.len());
    assert(bchannel_id =~= other_bchannel_id) by {
        assert forall|p: int| 0 <= p < bchannel_id.len() implies bchannel_id[p]
            == other_bchannel_id[p] by {
            assert(id[n + 1 + p] == bchannel_id[p]);
            assert(other[m + 1 + p] == other_bchannel_id[p]);
        }
    }
}

/// Rows of different broadcasters and channels have different ids, where no
/// broadcaster id holds a slash.
pub proof fn lemma_ids_unique(rows: Seq<BroadcastView>)
    requires
        broadcasts_unique(rows),
        broadcasters_slash_free(rows),
    ensures
        ids_unique(rows),
{
    assert forall|i: int, j: int| 0 <= i < j < rows.len() implies (#[trigger] rows[i]).id() != (
    #[trigger] rows[j]).id() by {
        if rows[i].id() == rows[j].id() {
            lemma_broadcast_id_injective(
                rows[i].broadcaster_id,
                rows[i].bchannel_id,
                rows[j].broadcaster_id,
                rows[j].bchannel_id,
            );
            assert(rows[i].is_for(rows[j].broadcaster_id, rows[j].bchannel_id));
        }
    }
}

/// Setting a version keeps the broadcaster ids free of slashes, where the
/// id of the broadcaster that writes is free of them.
pub proof fn lemma_upsert_slash_free(
    rows: Seq<BroadcastView>,
    broadcaster_id: Seq<char>,
    bchannel_id: Seq<char>,
    version: Seq<char>,
)
    requires
        broadcasters_slash_free(rows) ==> slash_free(broadcaster_id),
    ensures
        broadcasters_slash_free(rows) ==> broadcasters_slash_free(
            spec_upsert(rows, broadcaster_id, bchannel_id, version),
        ),
{
    let after = spec_upsert(rows, broadcaster_id, bchannel_id, version);
    let at = if has_broadcast(rows, broadcaster_id, bchannel_id) {
        index_of_broadcast(rows, broadcaster_id, bchannel_id)
    } else {
        rows.len() as int
    };
    if broadcasters_slash_free(rows) {
        assert forall|i: int| 0 <= i < after.len() implies slash_free(
            (#[trigger] after[i]).broadcaster_id,
        ) by {
            if i != at {
                assert(after[i] == rows[i]);
            }
        }
    }
}

/// The snapshot of rows with different ids holds one entry per row, in the
/// order of the rows: the row's id with the row's version.
pub proof fn lemma_snapshot(rows: Seq<BroadcastView>)
    requires
        ids_unique(rows),
    ensures
        spec_snapshot(rows) == Seq::new(rows.len(), |i: int| (rows[i].id(), rows[i].version)),
        keys_unique(spec_snapshot(rows)),
    decreases rows.len(),
{
    let entries = Seq::new(rows.len(), |i: int| (rows[i].id(), rows[i].version));
    if rows.len() == 0 {
        assert(spec_snapshot(rows) =~= entries);
    } else {
        let front = rows.drop_last();
        assert forall|i: int, j: int| 0 <= i < j < front.len() implies (#[trigger] front[i]).id()
            != (#[trigger] front[j]).id() by {
            assert(rows[i].id() != rows[j].id());
        }
        lemma_snapshot(front);
        let before = spec_snapshot(front);
        assert(!has_key(before, rows.last().id())) by {
            if has_key(before, rows.last().id()) {
                let i = index_of_key(before, rows.last().id());
                assert(rows[i].id() != rows[rows.len() - 1].id());
            }
        }
        assert(spec_snapshot(rows) =~= entries);
    }
    assert forall|i: int, j: int| 0 <= i < j < entries.len() implies (#[trigger] entries[i]).0 != (
    #[trigger] entries[j]).0 by {
        assert(rows[i].id() != rows[j].id());
    }
}

/// The snapshot shows each broadcast of the rows under its id, with the
/// version that the rows hold for it, where no broadcaster id holds a
/// slash.
pub proof fn lemma_snapshot_shows(
    rows: Seq<BroadcastView>,
    broadcaster_id: Seq<char>,
    bchannel_id: Seq<char>,
)
    requires
        broadcasts_unique(rows),
        broadcasters_slash_free(rows),
        has_broadcast(rows, broadcaster_id, bchannel_id),
    ensures
        spec_version(rows, broadcaster_id, bchannel_id) matches Some(version) && map_of(
            spec_snapshot(rows),
        ).contains_pair(broadcast_id(broadcaster_id, bchannel_id), version),
{
    lemma_ids_unique(rows);
    lemma_snapshot(rows);
    let at = index_of_broadcast(rows, broadcaster_id, bchannel_id);
    let entries = spec_snapshot(rows);
    let id = broadcast_id(broadcaster_id, bchannel_id);
    assert(entries[at] == (id, rows[at].version));
    assert(has_key(entries, id));
    let found = index_of_key(entries, id);
    if found < at {
        assert(entries[found].0 != entries[at].0);
    } else if at < found {
        assert(entries[at].0 != entries[found].0);
    }
}

/// A version that was just written is what the snapshot shows under the id
/// of its broadcast, where no broadcaster id holds a slash.
pub proof fn law_upsert_then_read(
    rows: Seq<BroadcastView>,
    broadcaster_id: Seq<char>,
    bchannel_id: Seq<char>,
    version: Seq<char>,
)
    requires
        broadcasts_unique(rows),
        broadcasters_slash_free(rows),
        slash_free(broadcaster_id),
    ensures
        map_of(
            spec_snapshot(spec_upsert(rows, broadcaster_id, bchannel_id, version)),
        ).contains_pair(broadcast_id(broadcaster_id, bchannel_id), version),
{
    let after = spec_upsert(rows, broadcaster_id, bchannel_id, version);
    lemma_upsert_unique(rows, broadcaster_id, bchannel_id, version);
    lemma_upsert_slash_free(rows, broadcaster_id, bchannel_id, version);
    lemma_upsert_version(rows, broadcaster_id, bchannel_id, version);
    lemma_snapshot_shows(after, broadcaster_id, bchannel_id);
}

/// After a version was set, the rows hold it.
pub proof fn lemma_upsert_version(
    rows: Seq<BroadcastView>,
    broadcaster_id: Seq<char>,
    bchannel_id: Seq<char>,
    version: Seq<char>,
)
    requires
        broadcasts_unique(rows),
    ensures
        has_broadcast(
            spec_upsert(rows, broadcaster_id, bchannel_id, version),
            broadcaster_id,
            bchannel_id,
        ),
        spec_version(
            spec_upsert(rows, broadcaster_id, bchannel_id, version),
            broadcaster_id,
            bchannel_id,
        ) == Some(version),
{
    let after = spec_upsert(rows, broadcaster_id, bchannel_id, version);
    let at = if has_broadcast(rows, broadcaster_id, bchannel_id) {
        index_of_broadcast(rows, broadcaster_id, bchannel_id)
    } else {
        rows.len() as int
    };
    lemma_upsert_unique(rows, broadcaster_id, bchannel_id, version);
    assert(after[at] == BroadcastView { broadcaster_id, bchannel_id, version });
    assert(after[at].is_for(broadcaster_id, bchannel_id));
    let found = index_of_broadcast(after, broadcaster_id, bchannel_id);
    if found < at {
        assert(!after[found].is_for(after[at].broadcaster_id, after[at].bchannel_id));
    } else if at < found {
        assert(!after[at].is_for(after[found].broadcaster_id, after[found].bchannel_id));
    }
}

/// A broadcast that was written is there, and stays there whatever is
/// written afterwards: only the first write of it creates it.
pub proof fn law_created_once(
    rows: Seq<BroadcastView>,
    broadcaster_id: Seq<char>,
    bchannel_id: Seq<char>,
    version: Seq<char>,
    next_broadcaster_id: Seq<char>,
    next_bchannel_id: Seq<char>,
    next_version: Seq<char>,
)
    ensures
        has_broadcast(
            spec_upsert(rows, broadcaster_id, bchannel_id, version),
            broadcaster_id,
            bchannel_id,
        ),
        has_broadcast(rows, broadcaster_id, bchannel_id) ==> has_broadcast(
            spec_upsert(rows, next_broadcaster_id, next_bchannel_id, next_version),
            broadcaster_id,
            bchannel_id,
        ),
{
    let after = spec_upsert(rows, broadcaster_id, bchannel_id, version);
    let at = if has_broadcast(rows, broadcaster_id, bchannel_id) {
        index_of_broadcast(rows, broadcaster_id, bchannel_id)
    } else {
        rows.len() as int
    };
    assert(after[at].is_for(broadcaster_id, bchannel_id));
    if has_broadcast(rows, broadcaster_id, bchannel_id) {
        let later = spec_upsert(rows, next_broadcaster_id, next_bchannel_id, next_version);
        assert(later[at].is_for(broadcaster_id, bchannel_id));
    }
}

/// The rows after the versions were written to one channel of one
/// broadcaster, one after the other.
pub open spec fn spec_upsert_all(
    rows: Seq<BroadcastView>,
    broadcaster_id: Seq<char>,
    bchannel_id: Seq<char>,
    versions: Seq<Seq<char>>,
) -> Seq<BroadcastView>
    decreases versions.len(),
{
    if versions.len() == 0 {
        rows
    } else {
        spec_upsert_all(
            spec_upsert(rows, broadcaster_id, bchannel_id, versions[0]),
            broadcaster_id,
            bchannel_id,
            versions.drop_first(),
        )
    }
}

/// What the writes of [`spec_upsert_all`] answer, in their order: whether
/// each created the broadcast.
pub open spec fn spec_created_all(
    rows: Seq<BroadcastView>,
    broadcaster_id: Seq<char>,
    bchannel_id: Seq<char>,
    versions: Seq<Seq<char>>,
) -> Seq<bool>
    decreases versions.len(),
{
    if versions.len() == 0 {
        Seq::empty()
    } else {
        seq![!has_broadcast(rows, broadcaster_id, bchannel_id)] + spec_created_all(
            spec_upsert(rows, broadcaster_id, bchannel_id, versions[0]),
            broadcaster_id,
            bchannel_id,
            versions.drop_first(),
        )
    }
}

/// Writes to a broadcast that is there create nothing, add no row, and leave
/// the last version written.
proof fn lemma_upsert_all_existing(
    rows: Seq<BroadcastView>,
    broadcaster_id: Seq<char>,
    bchannel_id: Seq<char>,
    versions: Seq<Seq<char>>,
)
    requires
        broadcasts_unique(rows),
        has_broadcast(rows, broadcaster_id, bchannel_id),
    ensures
        spec_created_all(rows, broadcaster_id, bchannel_id, versions).len() == versions.len(),
        forall|i: int|
            0 <= i < versions.len() ==> !(#[trigger] spec_created_all(
                rows,
                broadcaster_id,
                bchannel_id,
                versions,
            )[i]),
        broadcasts_unique(spec_upsert_all(rows, broadcaster_id, bchannel_id, versions)),
        has_broadcast(
            spec_upsert_all(rows, broadcaster_id, bchannel_id, versions),
            broadcaster_id,
            bchannel_id,
        ),
        spec_upsert_all(rows, broadcaster_id, bchannel_id, versions).len() == rows.len(),
        spec_version(
            spec_upsert_all(rows, broadcaster_id, bchannel_id, versions),
            broadcaster_id,
            bchannel_id,
        ) == if versions.len() == 0 {
            spec_version(rows, broadcaster_id, bchannel_id)
        } else {
            Some(versions.last())
        },
        broadcasters_slash_free(rows) && slash_free(broadcaster_id) ==> broadcasters_slash_free(
            spec_upsert_all(rows, broadcaster_id, bchannel_id, versions),
        ),
    decreases versions.len(),
{
    if versions.len() > 0 {
        let next = spec_upsert(rows, broadcaster_id, bchannel_id, versions[0]);
        lemma_upsert_unique(rows, broadcaster_id, bchannel_id, versions[0]);
        lemma_upsert_version(rows, broadcaster_id, bchannel_id, versions[0]);
        if broadcasters_slash_free(rows) && slash_free(broadcaster_id) {
            lemma_upsert_slash_free(rows, broadcaster_id, bchannel_id, versions[0]);
        }
        lemma_upsert_all_existing(next, broadcaster_id, bchannel_id, versions.drop_first());
        if versions.len() > 1 {
            assert(versions.drop_first().last() == versions.last());
        }
    }
}

/// Of any number of writes to one new broadcast, in whatever order they are
/// served, exactly the first creates it. Afterwards the table holds one row
/// more, the only row of that broadcast, with the version written last, and
/// the snapshot shows that version under the id of the broadcast, where no
/// broadcaster id holds a slash.
pub proof fn law_upsert_all(
    rows: Seq<BroadcastView>,
    broadcaster_id: Seq<char>,
    bchannel_id: Seq<char>,
    versions: Seq<Seq<char>>,
)
    requires
        broadcasts_unique(rows),
        !has_broadcast(rows, broadcaster_id, bchannel_id),
        versions.len() >= 1,
    ensures
        spec_created_all(rows, broadcaster_id, bchannel_id, versions).len() == versions.len(),
        forall|i: int|
            0 <= i < versions.len() ==> (#[trigger] spec_created_all(
                rows,
                broadcaster_id,
                bchannel_id,
                versions,
            )[i] <==> i == 0),
        broadcasts_unique(spec_upsert_all(rows, broadcaster_id, bchannel_id, versions)),
        spec_upsert_all(rows, broadcaster_id, bchannel_id, versions).len() == rows.len() + 1,
        spec_version(
            spec_upsert_all(rows, broadcaster_id, bchannel_id, versions),
            broadcaster_id,
            bchannel_id,
        ) == Some(versions.last()),
        broadcasters_slash_free(rows) && slash_free(broadcaster_id) ==> map_of(
            spec_snapshot(spec_upsert_all(rows, broadcaster_id, bchannel_id, versions)),
        ).contains_pair(broadcast_id(broadcaster_id, bchannel_id), versions.last()),
{
    let next = spec_upsert(rows, broadcaster_id, bchannel_id, versions[0]);
    let rest = versions.drop_first();
    lemma_upsert_unique(rows, broadcaster_id, bchannel_id, versions[0]);
    lemma_upsert_version(rows, broadcaster_id, bchannel_id, versions[0]);
    if broadcasters_slash_free(rows) && slash_free(broadcaster_id) {
        lemma_upsert_slash_free(rows, broadcaster_id, bchannel_id, versions[0]);
    }
    lemma_upsert_all_existing(next, broadcaster_id, bchannel_id, rest);
    let flags = spec_created_all(rows, broadcaster_id, bchannel_id, versions);
    let later = spec_created_all(next, broadcaster_id, bchannel_id, rest);
    assert forall|i: int| 0 <= i < versions.len() implies (#[trigger] flags[i] <==> i == 0) by {
        if i > 0 {
            assert(flags[i] == later[i - 1]);
        }
    }
    if rest.len() > 0 {
        assert(rest.last() == versions.last());
    }
    if broadcasters_slash_free(rows) && slash_free(broadcaster_id) {
        lemma_snapshot_shows(
            spec_upsert_all(rows, broadcaster_id, bchannel_id, versions),
            broadcaster_id,
            bchannel_id,
        );
    }
}

} // verus!

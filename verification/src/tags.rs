//! Tags are extra data to be recorded in metric and logging calls.

use crate::error::HandlerResult;
use crate::string_map::StringMap;
use vstd::prelude::*;
use vstd::string::*;

verus! {

#[derive(Debug)]
pub struct Tags {
    pub tags: StringMap,
    pub extra: StringMap,
}

/// The map of the tags of optional tags: empty where there are none.
pub open spec fn tags_or_none(tags: Option<Tags>) -> Map<Seq<char>, Seq<char>> {
    match tags {
        Some(tags) => tags.tags.map(),
        None => Map::empty(),
    }
}

/// The extra entries of optional tags, in their order: none where there are
/// no tags.
pub open spec fn extra_or_none(tags: Option<Tags>) -> Seq<(Seq<char>, Seq<char>)> {
    match tags {
        Some(tags) => tags.extra@,
        None => Seq::empty(),
    }
}

impl Clone for Tags {
    fn clone(&self) -> (copy: Self)
        ensures
            copy.tags@ == self.tags@,
            copy.extra@ == self.extra@,
    {
        Tags { tags: self.tags.clone(), extra: self.extra.clone() }
    }
}

impl Default for Tags {
    fn default() -> (tags: Tags)
        ensures
            tags.tags@.len() == 0,
            tags.extra@.len() == 0,
    {
        Tags { tags: StringMap::new(), extra: StringMap::new() }
    }
}

/// The pairs whose value is not empty, in their order.
pub open spec fn with_values(pairs: Seq<(Seq<char>, Seq<char>)>) -> Seq<(Seq<char>, Seq<char>)>
    decreases pairs.len(),
{
    if pairs.len() == 0 {
        Seq::empty()
    } else if pairs.last().1.len() == 0 {
        with_values(pairs.drop_last())
    } else {
        with_values(pairs.drop_last()).push(pairs.last())
    }
}

impl Tags {
    /// The tags that a service starts with: none.
    pub fn init() -> (r: HandlerResult<Tags>)
        ensures
            r matches Ok(tags) && tags.tags@.len() == 0 && tags.extra@.len() == 0,
    {
        let tags = StringMap::new();
        let extra = StringMap::new();
        Ok(Tags { tags, extra })
    }

    /// Adds the given tags. A tag that is there takes the given value.
    pub fn extend(&mut self, tags: StringMap)
        ensures
            final(self).tags.map() == old(self).tags.map().union_prefer_right(tags.map()),
            final(self).extra == old(self).extra,
    {
        self.tags.extend(tags);
    }

    /// The tags that a metric is sent with: those of the service, and over
    /// them those of the call. The extra entries are those of the service;
    /// those of the call are not sent.
    pub fn merged(base: Option<Tags>, tags: Option<Tags>) -> (merged: Tags)
        ensures
            merged.tags.map() == tags_or_none(base).union_prefer_right(tags_or_none(tags)),
            merged.extra@ == extra_or_none(base),
    {
        let mut merged = match base {
            Some(base) => base,
            None => {
                let none = Tags::default();
                assert(none.tags.map() =~= Map::empty());
                assert(none.extra@ =~= Seq::empty());
                none
            },
        };
        match tags {
            Some(tags) => {
                merged.extend(tags.tags);
            },
            None => {
                assert(merged.tags.map().union_prefer_right(Map::empty()) =~= merged.tags.map());
            },
        }
        merged
    }

    /// The tags that are written out: those with a value that is not
    /// empty, in their order.
    pub fn serialized(&self) -> (entries: Vec<(String, String)>)
        ensures
            entries@.len() == with_values(self.tags@).len(),
            forall|i: int|
                0 <= i < entries@.len() ==> (#[trigger] entries@[i]).0@ == with_values(
                    self.tags@,
                )[i].0 && entries@[i].1@ == with_values(self.tags@)[i].1,
    {
        let all = self.tags.entries();
        let mut entries: Vec<(String, String)> = Vec::new();
        let mut i: usize = 0;
        assert(self.tags@.take(0) =~= Seq::empty());
        while i < all.len()
            invariant
                i <= all@.len(),
                all@.len() == self.tags@.len(),
                forall|j: int|
                    0 <= j < all@.len() ==> (#[trigger] all@[j]).0@ == self.tags@[j].0
                        && all@[j].1@ == self.tags@[j].1,
                entries@.len() == with_values(self.tags@.take(i as int)).len(),
                forall|j: int|
                    0 <= j < entries@.len() ==> (#[trigger] entries@[j]).0@ == with_values(
                        self.tags@.take(i as int),
                    )[j].0 && entries@[j].1@ == with_values(self.tags@.take(i as int))[j].1,
            decreases all@.len() - i,
        {
            proof {
                let upto = self.tags@.take(i + 1);
                assert(upto.drop_last() =~= self.tags@.take(i as int));
                assert(upto.last() == self.tags@[i as int]);
            }
            if all[i].1.as_str().unicode_len() != 0 {
                entries.push((all[i].0.clone(), all[i].1.clone()));
            }
            i = i + 1;
        }
        assert(self.tags@.take(i as int) =~= self.tags@);
        entries
    }

    /// The tags of a request that sets a version: the given ones, and the
    /// broadcaster, the channel and the version of the request.
    pub fn for_broadcast(self, broadcaster_id: &str, bchannel_id: &str, version: &str) -> (tags:
        Tags)
        ensures
            tags.tags.map() == self.tags.map().insert("broadcaster"@, broadcaster_id@).insert(
                "channel_id"@,
                bchannel_id@,
            ).insert("version"@, version@),
            tags.extra == self.extra,
    {
        let mut tags = self;
        tags.tags.insert(String::from_str("broadcaster"), String::from_str(broadcaster_id));
        tags.tags.insert(String::from_str("channel_id"), String::from_str(bchannel_id));
        tags.tags.insert(String::from_str("version"), String::from_str(version));
        tags
    }
}

} // verus!

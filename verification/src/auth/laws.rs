//! What holds of every configuration and of the registry that it builds,
//! and of every caller that the registry knows.

use crate::auth::config::{
    entries_valid, entry_tokens, is_token_place, token_at, token_of, tokens_valid, AuthConfig,
    ConfigErrorView, UserEntry,
};
use crate::auth::loading::{
    entries_fresh, has_entry_token, has_token, has_user, lemma_joined_has, lemma_joined_places,
    lemma_load_users, lemma_table_duplicate_token,
    lemma_table_duplicate_user, lemma_valid_joined, lemma_valid_take, loaded_from,
};
use crate::auth::registry::{spec_from_config, spec_load_users, Registry};
use crate::auth::{
    is_bearer, spec_authorized_broadcaster, spec_authorized_reader, spec_bearer_token, Denial,
    Group,
};
use vstd::prelude::*;

verus! {

/// What a registry holds that was built from a configuration: each user id
/// of the configuration under the group of its table, each token of the
/// configuration for the user that lists it, and nothing else.
pub open spec fn built_from(config: AuthConfig, reg: Registry) -> bool {
    &&& forall|user_id: Seq<char>| #[trigger]
        reg.groups.contains_key(user_id) <==> has_user(config.entries(), user_id)
    &&& forall|k: int|
        0 <= k < config.entries().len() ==> reg.groups[(#[trigger] config.entries()[k]).user_id@]
            == config.group_at(k)
    &&& forall|token: Seq<char>| #[trigger]
        reg.users.contains_key(token) <==> has_entry_token(config.entries(), token)
    &&& forall|k: int, j: int| #[trigger]
        is_token_place(config.entries(), k, j) ==> reg.users[token_of(config.entries(), k, j)]
            == config.entries()[k].user_id@
}

/// What the second of two sequences of entries adds to a registry that
/// holds the first, seen from the two joined.
proof fn lemma_loaded_joined(
    config: AuthConfig,
    mid: Registry,
    reg: Registry,
)
    requires
        config.broadcaster_auth is Some,
        config.reader_auth is Some,
        loaded_from(
            Registry::empty(),
            Group::Broadcaster,
            config.group_entries(Group::Broadcaster),
            mid,
        ),
        loaded_from(mid, Group::Reader, config.group_entries(Group::Reader), reg),
        entries_fresh(mid, config.group_entries(Group::Reader)),
    ensures
        built_from(config, reg),
{
    let first = config.group_entries(Group::Broadcaster);
    let second = config.group_entries(Group::Reader);
    let all = config.entries();
    let n = first.len() as int;
    lemma_joined_places(first, second);
    lemma_joined_has(first, second);
    assert forall|user_id: Seq<char>| #[trigger]
        reg.groups.contains_key(user_id) <==> has_user(all, user_id) by {
        assert(mid.groups.contains_key(user_id) <==> has_user(first, user_id));
    }
    assert forall|k: int| 0 <= k < all.len() implies reg.groups[(#[trigger] all[k]).user_id@]
        == config.group_at(k) by {
        if k < n {
            assert(first[k] == all[k]);
            assert(has_user(first, first[k].user_id@));
            assert(mid.groups.contains_key(first[k].user_id@));
        } else {
            assert(second[k - n] == all[k]);
        }
    }
    assert forall|token: Seq<char>| #[trigger]
        reg.users.contains_key(token) <==> has_entry_token(all, token) by {
        assert(mid.users.contains_key(token) <==> has_entry_token(first, token));
    }
    assert forall|k: int, j: int| #[trigger] is_token_place(all, k, j) implies reg.users[token_of(
        all,
        k,
        j,
    )] == all[k].user_id@ by {
        if k < n {
            assert(is_token_place(first, k, j));
            assert(has_entry_token(first, token_of(first, k, j)));
            assert(mid.users.contains_key(token_of(first, k, j)));
        } else {
            assert(is_token_place(second, k - n, j));
        }
    }
}

/// A configuration builds a registry if and only if it is valid. The
/// registry then holds what the configuration lists, and nothing else.
pub proof fn lemma_from_config(config: AuthConfig)
    ensures
        spec_from_config(config) is Ok <==> config.valid(),
        spec_from_config(config) matches Ok(reg) ==> built_from(config, reg),
{
    let first = config.group_entries(Group::Broadcaster);
    let second = config.group_entries(Group::Reader);
    if config.broadcaster_auth is Some {
        lemma_load_users(Registry::empty(), Group::Broadcaster, first);
        match spec_load_users(Registry::empty(), Group::Broadcaster, first) {
            Err(_) => {
                if config.reader_auth is Some && entries_valid(first + second) {
                    assert((first + second).take(first.len() as int) =~= first);
                    lemma_valid_take(first + second, first.len() as int);
                }
            },
            Ok(mid) => {
                if config.reader_auth is Some {
                    lemma_valid_joined(first, second, Group::Broadcaster, mid);
                    lemma_load_users(mid, Group::Reader, second);
                    if let Ok(reg) = spec_load_users(mid, Group::Reader, second) {
                        lemma_loaded_joined(config, mid, reg);
                    }
                }
            },
        }
    }
}

/// A user id that stands twice in a configuration, under one group or under
/// both, makes the configuration fail. The error is `DuplicateUser`, naming
/// the user, the group of its second entry and the group of its first,
/// where all that is loaded before the second entry is valid.
pub proof fn law_duplicate_user(config: AuthConfig, k1: int, k2: int)
    requires
        0 <= k1 < k2 < config.entries().len(),
        config.entries()[k1].user_id@ == config.entries()[k2].user_id@,
    ensures
        spec_from_config(config) is Err,
        config.broadcaster_auth is Some && entries_valid(config.entries().take(k2))
            ==> spec_from_config(config) == Err::<Registry, ConfigErrorView>(
            ConfigErrorView::DuplicateUser {
                group: config.group_at(k2),
                user_id: config.entries()[k2].user_id@,
                dupe: config.group_at(k1),
            },
        ),
{
    let all = config.entries();
    let first = config.group_entries(Group::Broadcaster);
    let second = config.group_entries(Group::Reader);
    let n = first.len() as int;
    let user_id = all[k2].user_id@;
    lemma_from_config(config);
    lemma_joined_places(first, second);
    if config.broadcaster_auth is Some && entries_valid(all.take(k2)) {
        if k2 < n {
            assert(all.take(k2) =~= first.take(k2));
            assert(first.take(k2)[k1].user_id@ == user_id);
            lemma_table_duplicate_user(Registry::empty(), Group::Broadcaster, first, k2);
        } else {
            let cut = k2 - n;
            assert(all.take(k2) =~= first + second.take(cut));
            assert(all.take(k2).take(n) =~= first);
            lemma_valid_take(all.take(k2), n);
            lemma_load_users(Registry::empty(), Group::Broadcaster, first);
            let mid = spec_load_users(Registry::empty(), Group::Broadcaster, first)->Ok_0;
            lemma_valid_joined(first, second.take(cut), Group::Broadcaster, mid);
            if k1 < n {
                assert(first[k1].user_id@ == user_id);
                assert(has_user(first, user_id));
                assert(mid.groups.contains_key(user_id));
                assert(mid.groups[first[k1].user_id@] == Group::Broadcaster);
            } else {
                assert(second.take(cut)[k1 - n].user_id@ == user_id);
                assert(!mid.groups.contains_key(second.take(cut)[k1 - n].user_id@));
            }
            lemma_table_duplicate_user(mid, Group::Reader, second, cut);
        }
    }
}

/// All that is loaded before place `j` of the entry at place `k` is valid:
/// the entries before it, the user of the entry, and the tokens of the
/// entry before place `j`.
pub open spec fn valid_before(entries: Seq<UserEntry>, k: int, j: int) -> bool {
    &&& is_token_place(entries, k, j)
    &&& entries_valid(entries.take(k))
    &&& !has_user(entries.take(k), entries[k].user_id@)
    &&& tokens_valid(entry_tokens(entries[k]).take(j))
    &&& forall|j0: int|
        0 <= j0 < j ==> !has_entry_token(
            entries.take(k),
            #[trigger] token_at(entry_tokens(entries[k]), j0),
        )
}

/// A token that stands twice in a configuration, for one user or for two,
/// makes the configuration fail. The error is `DuplicateToken`, naming the
/// user of its second place, the user of its first place and the token,
/// where all that is loaded before the second place is valid.
pub proof fn law_duplicate_token(config: AuthConfig, k1: int, j1: int, k2: int, j2: int)
    requires
        is_token_place(config.entries(), k1, j1),
        is_token_place(config.entries(), k2, j2),
        k1 < k2 || (k1 == k2 && j1 < j2),
        entry_tokens(config.entries()[k1])[j1] is Token,
        entry_tokens(config.entries()[k2])[j2] is Token,
        token_of(config.entries(), k1, j1) == token_of(config.entries(), k2, j2),
    ensures
        spec_from_config(config) is Err,
        config.broadcaster_auth is Some && valid_before(config.entries(), k2, j2)
            ==> spec_from_config(config) == Err::<Registry, ConfigErrorView>(
            ConfigErrorView::DuplicateToken {
                group: config.group_at(k2),
                user_id: config.entries()[k2].user_id@,
                owner: config.entries()[k1].user_id@,
                token: token_of(config.entries(), k2, j2),
            },
        ),
{
    let all = config.entries();
    let first = config.group_entries(Group::Broadcaster);
    let second = config.group_entries(Group::Reader);
    let n = first.len() as int;
    let entry = all[k2];
    let tokens = entry_tokens(entry);
    let before = tokens.take(j2);
    let token = token_of(all, k2, j2);
    lemma_from_config(config);
    lemma_joined_places(first, second);
    if config.broadcaster_auth is Some && valid_before(all, k2, j2) {
        if k1 == k2 {
            assert(before[j1] is Token);
            assert(token_at(before, j1) == token);
            assert(has_token(before, token));
        }
        if k2 < n {
            let prefix = first.take(k2);
            assert(all.take(k2) =~= prefix);
            if k1 < k2 {
                assert(is_token_place(prefix, k1, j1));
                assert(token_of(prefix, k1, j1) == token);
            }
            lemma_table_duplicate_token(Registry::empty(), Group::Broadcaster, first, k2, j2);
        } else {
            let cut = k2 - n;
            let prefix = second.take(cut);
            assert(all.take(k2) =~= first + prefix);
            assert(all.take(k2).take(n) =~= first);
            lemma_valid_take(all.take(k2), n);
            lemma_load_users(Registry::empty(), Group::Broadcaster, first);
            let mid = spec_load_users(Registry::empty(), Group::Broadcaster, first)->Ok_0;
            lemma_valid_joined(first, prefix, Group::Broadcaster, mid);
            lemma_joined_has(first, prefix);
            assert(second[cut] == entry);
            assert(is_token_place(second, cut, j2));
            assert(token_of(second, cut, j2) == token);
            assert forall|j0: int| 0 <= j0 < j2 implies !mid.users.contains_key(
                #[trigger] token_at(tokens, j0),
            ) && !has_entry_token(prefix, token_at(tokens, j0)) by {
                assert(!has_entry_token(all.take(k2), token_at(tokens, j0)));
            }
            if k1 < n {
                assert(is_token_place(first, k1, j1));
                assert(token_of(first, k1, j1) == token);
                assert(has_entry_token(first, token));
                assert(mid.users.contains_key(token));
                assert(mid.users[token_of(first, k1, j1)] == first[k1].user_id@);
            } else if k1 < k2 {
                assert(is_token_place(prefix, k1 - n, j1));
                assert(token_of(prefix, k1 - n, j1) == token);
                assert(second[k1 - n] == all[k1]);
            }
            lemma_table_duplicate_token(mid, Group::Reader, second, cut, j2);
        }
    }
    assert(!entries_valid(all)) by {
        if entries_valid(all) {
            assert(token_of(all, k1, j1) != token_of(all, k2, j2));
        }
    }
}

/// In the registry of a configuration, each token of the configuration
/// stands for the user that lists it and for the group of that user's
/// table, and a token that the configuration lacks stands for nobody.
pub proof fn law_lookup(config: AuthConfig, reg: Registry)
    requires
        spec_from_config(config) == Ok::<Registry, ConfigErrorView>(reg),
    ensures
        forall|k: int, j: int| #[trigger]
            is_token_place(config.entries(), k, j) ==> reg.lookup(
                token_of(config.entries(), k, j),
            ) == Some((config.entries()[k].user_id@, config.group_at(k))),
        forall|token: Seq<char>|
            !has_entry_token(config.entries(), token) ==> #[trigger] reg.lookup(token) is None,
{
    lemma_from_config(config);
    assert forall|k: int, j: int| #[trigger] is_token_place(config.entries(), k, j) implies reg.lookup(
        token_of(config.entries(), k, j),
    ) == Some((config.entries()[k].user_id@, config.group_at(k))) by {
        assert(has_entry_token(config.entries(), token_of(config.entries(), k, j)));
    }
}

/// Credentials hold a token exactly where they are a scheme that spells
/// `bearer`, one space, and the token.
pub proof fn law_bearer_form(credentials: Seq<char>, token: Seq<char>)
    ensures
        spec_bearer_token(credentials) == Some(token) <==> exists|scheme: Seq<char>|
            is_bearer(scheme) && credentials == #[trigger] (scheme + seq![' '] + token),
{
    if spec_bearer_token(credentials) == Some(token) {
        let scheme = credentials.take(6);
        assert(credentials =~= scheme + seq![' '] + token);
    }
    if exists|scheme: Seq<char>|
        is_bearer(scheme) && credentials == #[trigger] (scheme + seq![' '] + token) {
        let scheme = choose|scheme: Seq<char>|
            is_bearer(scheme) && credentials == #[trigger] (scheme + seq![' '] + token);
        assert(credentials.take(6) =~= scheme);
        assert(credentials.skip(7) =~= token);
    }
}

/// A broadcaster may write the broadcasts of its own id, and of no other.
pub proof fn law_broadcaster_writes_its_own(
    reg: Registry,
    credentials: Seq<char>,
    id: Seq<char>,
    other: Seq<char>,
)
    requires
        reg.authenticated_user(credentials) == Some((id, Group::Broadcaster)),
        other != id,
    ensures
        spec_authorized_broadcaster(reg, Some(credentials), Some(id)) == Ok::<Seq<char>, Denial>(
            id,
        ),
        spec_authorized_broadcaster(reg, Some(credentials), Some(other)) == Err::<
            Seq<char>,
            Denial,
        >(Denial::Unauthorized),
{
}

/// A reader may read, and may write the broadcasts of no id.
pub proof fn law_reader_reads_only(
    reg: Registry,
    credentials: Seq<char>,
    id: Seq<char>,
    for_broadcast_id: Seq<char>,
)
    requires
        reg.authenticated_user(credentials) == Some((id, Group::Reader)),
    ensures
        spec_authorized_reader(reg, Some(credentials)) == Ok::<Seq<char>, Denial>(id),
        spec_authorized_broadcaster(reg, Some(credentials), Some(for_broadcast_id)) == Err::<
            Seq<char>,
            Denial,
        >(Denial::Unauthorized),
{
}

/// Whether `to` holds the entries of `from` in another order: the entry at
/// place `k` of `to` is the one at place `order[k]` of `from`, and `back`
/// leads the other way.
pub open spec fn rearranged(
    from: Seq<UserEntry>,
    to: Seq<UserEntry>,
    order: Seq<int>,
    back: Seq<int>,
) -> bool {
    &&& to.len() == from.len()
    &&& order.len() == from.len()
    &&& back.len() == from.len()
    &&& forall|k: int|
        0 <= k < to.len() ==> 0 <= #[trigger] order[k] < from.len() && to[k] == from[order[k]]
            && back[order[k]] == k
    &&& forall|k: int|
        0 <= k < from.len() ==> 0 <= #[trigger] back[k] < to.len() && order[back[k]] == k
}

/// Entries that are valid and new to a registry are so in every order.
proof fn lemma_valid_rearranged(
    reg: Registry,
    from: Seq<UserEntry>,
    to: Seq<UserEntry>,
    order: Seq<int>,
    back: Seq<int>,
)
    requires
        rearranged(from, to, order, back),
        entries_valid(from),
        entries_fresh(reg, from),
    ensures
        entries_valid(to),
        entries_fresh(reg, to),
{
    assert forall|k: int, j: int| #[trigger] is_token_place(to, k, j) implies is_token_place(
        from,
        order[k],
        j,
    ) && token_of(to, k, j) == token_of(from, order[k], j) by {
        assert(to[k] == from[order[k]]);
    }
    assert forall|k: int| 0 <= k < to.len() implies (#[trigger] to[k]).tokens is Array by {
        assert(from[order[k]].tokens is Array);
    }
    assert forall|k: int, j: int| #[trigger] is_token_place(to, k, j) implies entry_tokens(
        to[k],
    )[j] is Token by {
        assert(is_token_place(from, order[k], j));
    }
    assert forall|k1: int, k2: int| 0 <= k1 < k2 < to.len() implies (#[trigger] to[k1]).user_id@
        != (#[trigger] to[k2]).user_id@ by {
        let p1 = order[k1];
        let p2 = order[k2];
        assert(back[p1] == k1 && back[p2] == k2);
        if p1 < p2 {
            assert(from[p1].user_id@ != from[p2].user_id@);
        } else {
            assert(from[p2].user_id@ != from[p1].user_id@);
        }
    }
    assert forall|k1: int, j1: int, k2: int, j2: int|
        #[trigger] is_token_place(to, k1, j1) && #[trigger] is_token_place(to, k2, j2) && (k1
            != k2 || j1 != j2) implies token_of(to, k1, j1) != token_of(to, k2, j2) by {
        let p1 = order[k1];
        let p2 = order[k2];
        assert(back[p1] == k1 && back[p2] == k2);
        assert(is_token_place(from, p1, j1));
        assert(is_token_place(from, p2, j2));
    }
    assert forall|k: int| 0 <= k < to.len() implies !reg.groups.contains_key(
        (#[trigger] to[k]).user_id@,
    ) by {
        assert(!reg.groups.contains_key(from[order[k]].user_id@));
    }
    assert forall|k: int, j: int| #[trigger] is_token_place(to, k, j) implies !reg.users.contains_key(
        token_of(to, k, j),
    ) by {
        assert(is_token_place(from, order[k], j));
    }
}

/// What entries add to a registry, they add in every order.
proof fn lemma_loaded_rearranged(
    reg: Registry,
    group: Group,
    from: Seq<UserEntry>,
    to: Seq<UserEntry>,
    order: Seq<int>,
    back: Seq<int>,
    loaded: Registry,
)
    requires
        rearranged(from, to, order, back),
        loaded_from(reg, group, from, loaded),
    ensures
        loaded_from(reg, group, to, loaded),
{
    assert forall|k: int, j: int| #[trigger] is_token_place(to, k, j) implies is_token_place(
        from,
        order[k],
        j,
    ) && token_of(to, k, j) == token_of(from, order[k], j) by {
        assert(to[k] == from[order[k]]);
    }
    assert forall|k: int, j: int| #[trigger] is_token_place(from, k, j) implies is_token_place(
        to,
        back[k],
        j,
    ) && token_of(from, k, j) == token_of(to, back[k], j) by {
        assert(to[back[k]] == from[order[back[k]]]);
    }
    assert forall|user_id: Seq<char>| has_user(from, user_id) <==> has_user(to, user_id) by {
        if has_user(from, user_id) {
            let k = choose|k: int| 0 <= k < from.len() && (#[trigger] from[k]).user_id@ == user_id;
            assert(to[back[k]] == from[order[back[k]]]);
            assert(to[back[k]].user_id@ == user_id);
        }
        if has_user(to, user_id) {
            let k = choose|k: int| 0 <= k < to.len() && (#[trigger] to[k]).user_id@ == user_id;
            assert(from[order[k]].user_id@ == user_id);
        }
    }
    assert forall|token: Seq<char>| has_entry_token(from, token) <==> has_entry_token(
        to,
        token,
    ) by {
        if has_entry_token(from, token) {
            let (k, j) = choose|k: int, j: int| #[trigger]
                is_token_place(from, k, j) && token_of(from, k, j) == token;
            assert(is_token_place(to, back[k], j));
        }
        if has_entry_token(to, token) {
            let (k, j) = choose|k: int, j: int| #[trigger]
                is_token_place(to, k, j) && token_of(to, k, j) == token;
            assert(is_token_place(from, order[k], j));
        }
    }
    assert forall|user_id: Seq<char>| #[trigger]
        loaded.groups.contains_key(user_id) <==> reg.groups.contains_key(user_id) || has_user(
            to,
            user_id,
        ) by {
        assert(has_user(from, user_id) <==> has_user(to, user_id));
    }
    assert forall|k: int| 0 <= k < to.len() implies loaded.groups[(#[trigger] to[k]).user_id@]
        == group by {
        assert(loaded.groups[from[order[k]].user_id@] == group);
    }
    assert forall|token: Seq<char>| #[trigger]
        loaded.users.contains_key(token) <==> reg.users.contains_key(token) || has_entry_token(
            to,
            token,
        ) by {
        assert(has_entry_token(from, token) <==> has_entry_token(to, token));
    }
    assert forall|k: int, j: int| #[trigger] is_token_place(to, k, j) implies loaded.users[token_of(
        to,
        k,
        j,
    )] == to[k].user_id@ by {
        assert(is_token_place(from, order[k], j));
    }
}

/// The order of the entries of a table decides neither whether they load
/// nor what the registry holds once they are loaded.
pub proof fn law_order_of_entries(
    reg: Registry,
    group: Group,
    from: Seq<UserEntry>,
    to: Seq<UserEntry>,
    order: Seq<int>,
    back: Seq<int>,
)
    requires
        rearranged(from, to, order, back),
    ensures
        spec_load_users(reg, group, from) is Ok <==> spec_load_users(reg, group, to) is Ok,
        spec_load_users(reg, group, from) is Ok ==> spec_load_users(reg, group, from)
            == spec_load_users(reg, group, to),
{
    lemma_load_users(reg, group, from);
    lemma_load_users(reg, group, to);
    assert(rearranged(to, from, back, order)) by {
        assert forall|k: int| 0 <= k < from.len() implies 0 <= #[trigger] back[k] < to.len()
            && from[k] == to[back[k]] && order[back[k]] == k by {
            assert(to[back[k]] == from[order[back[k]]]);
        }
    }
    if entries_valid(from) && entries_fresh(reg, from) {
        lemma_valid_rearranged(reg, from, to, order, back);
    }
    if entries_valid(to) && entries_fresh(reg, to) {
        lemma_valid_rearranged(reg, to, from, back, order);
    }
    if let Ok(loaded) = spec_load_users(reg, group, from) {
        let other = spec_load_users(reg, group, to)->Ok_0;
        lemma_loaded_rearranged(reg, group, from, to, order, back, loaded);
        assert(loaded.users =~= other.users) by {
            assert forall|token: Seq<char>| loaded.users.contains_key(token) implies #[trigger] loaded.users[token]
                == other.users[token] by {
                if !reg.users.contains_key(token) {
                    let (k, j) = choose|k: int, j: int| #[trigger]
                        is_token_place(to, k, j) && token_of(to, k, j) == token;
                    assert(loaded.users[token_of(to, k, j)] == to[k].user_id@);
                    assert(other.users[token_of(to, k, j)] == to[k].user_id@);
                }
            }
        }
        assert(loaded.groups =~= other.groups) by {
            assert forall|user_id: Seq<char>| loaded.groups.contains_key(user_id) implies #[trigger] loaded.groups[user_id]
                == other.groups[user_id] by {
                if !reg.groups.contains_key(user_id) {
                    let k = choose|k: int|
                        0 <= k < to.len() && (#[trigger] to[k]).user_id@ == user_id;
                    assert(loaded.groups[to[k].user_id@] == group);
                    assert(other.groups[to[k].user_id@] == group);
                }
            }
        }
    }
}

} // verus!

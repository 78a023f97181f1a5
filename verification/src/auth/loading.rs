//! How loading goes, step by step: what the tokens of a user and the
//! entries of a group add to a registry, when they load, and where loading
//! ends.

use crate::auth::config::{
    entries_valid, entry_tokens, is_token_place, token_at, token_of, tokens_valid, ConfigErrorView,
    TokenValue, TokensValue, UserEntry,
};
use crate::auth::registry::{spec_load_tokens, spec_load_users, Registry};
use crate::auth::Group;
use vstd::prelude::*;

verus! {

/// Whether `token` stands in the list.
pub open spec fn has_token(tokens: Seq<TokenValue>, token: Seq<char>) -> bool {
    exists|j: int| 0 <= j < tokens.len() && tokens[j] is Token && #[trigger] token_at(tokens, j) == token
}

/// No element of the list is registered in `reg`.
pub open spec fn tokens_fresh(reg: Registry, tokens: Seq<TokenValue>) -> bool {
    forall|j: int| 0 <= j < tokens.len() ==> !reg.users.contains_key(#[trigger] token_at(tokens, j))
}

/// The tokens of a registry after those of the list were registered for
/// `user_id`.
pub open spec fn users_with_tokens(
    users: Map<Seq<char>, Seq<char>>,
    tokens: Seq<TokenValue>,
    user_id: Seq<char>,
) -> Map<Seq<char>, Seq<char>> {
    Map::new(
        |token: Seq<char>| users.contains_key(token) || has_token(tokens, token),
        |token: Seq<char>|
            if has_token(tokens, token) {
                user_id
            } else {
                users[token]
            },
    )
}

/// The tokens of a user load if and only if they are valid and new to the
/// registry. They are then registered for the user, and nothing else changes.
pub proof fn lemma_load_tokens(reg: Registry, group: Group, user_id: Seq<char>, tokens: Seq<TokenValue>)
    ensures
        spec_load_tokens(reg, group, user_id, tokens) is Ok <==> tokens_valid(tokens)
            && tokens_fresh(reg, tokens),
        spec_load_tokens(reg, group, user_id, tokens) matches Ok(loaded) ==> loaded.groups
            == reg.groups && loaded.users == users_with_tokens(reg.users, tokens, user_id),
    decreases tokens.len(),
{
    if tokens.len() == 0 {
        assert(users_with_tokens(reg.users, tokens, user_id) =~= reg.users);
    } else {
        let rest = tokens.drop_first();
        assert forall|j: int| 0 <= j < rest.len() implies #[trigger] token_at(rest, j) == token_at(
            tokens,
            j + 1,
        ) && rest[j] == tokens[j + 1] by {}
        match tokens[0] {
            TokenValue::Other => {},
            TokenValue::Token(token) => {
                assert(token_at(tokens, 0) == token@);
                if reg.users.contains_key(token@) {
                } else {
                    let next = reg.with_token(token@, user_id);
                    lemma_load_tokens(next, group, user_id, rest);
                    if tokens_valid(tokens) && tokens_fresh(reg, tokens) {
                        assert(tokens_valid(rest)) by {
                            assert forall|j: int| 0 <= j < rest.len() implies #[trigger] rest[j] is Token by {
                                assert(tokens[j + 1] is Token);
                            }
                            assert forall|j1: int, j2: int| 0 <= j1 < j2 < rest.len() implies #[trigger] token_at(
                                rest,
                                j1,
                            ) != #[trigger] token_at(rest, j2) by {
                                assert(token_at(tokens, j1 + 1) != token_at(tokens, j2 + 1));
                            }
                        }
                        assert(tokens_fresh(next, rest)) by {
                            assert forall|j: int| 0 <= j < rest.len() implies !next.users.contains_key(
                                #[trigger] token_at(rest, j),
                            ) by {
                                assert(token_at(tokens, 0) != token_at(tokens, j + 1));
                                assert(!reg.users.contains_key(token_at(tokens, j + 1)));
                            }
                        }
                    }
                    if tokens_valid(rest) && tokens_fresh(next, rest) {
                        assert(tokens_valid(tokens)) by {
                            assert forall|j: int| 0 <= j < tokens.len() implies #[trigger] tokens[j] is Token by {
                                if j > 0 {
                                    assert(rest[j - 1] is Token);
                                }
                            }
                            assert forall|j1: int, j2: int| 0 <= j1 < j2 < tokens.len() implies #[trigger] token_at(
                                tokens,
                                j1,
                            ) != #[trigger] token_at(tokens, j2) by {
                                assert(token_at(rest, j2 - 1) == token_at(tokens, j2));
                                if j1 == 0 {
                                    assert(!next.users.contains_key(token_at(rest, j2 - 1)));
                                } else {
                                    assert(token_at(rest, j1 - 1) == token_at(tokens, j1));
                                }
                            }
                        }
                        assert(tokens_fresh(reg, tokens)) by {
                            assert forall|j: int| 0 <= j < tokens.len() implies !reg.users.contains_key(
                                #[trigger] token_at(tokens, j),
                            ) by {
                                if j > 0 {
                                    assert(token_at(rest, j - 1) == token_at(tokens, j));
                                    assert(!next.users.contains_key(token_at(rest, j - 1)));
                                }
                            }
                        }
                    }
                    if let Ok(loaded) = spec_load_tokens(reg, group, user_id, tokens) {
                        assert forall|t: Seq<char>| has_token(tokens, t) <==> t == token@ || has_token(
                            rest,
                            t,
                        ) by {
                            if has_token(tokens, t) {
                                let j = choose|j: int|
                                    0 <= j < tokens.len() && tokens[j] is Token && #[trigger] token_at(
                                        tokens,
                                        j,
                                    ) == t;
                                if j > 0 {
                                    assert(token_at(rest, j - 1) == t);
                                    assert(rest[j - 1] is Token);
                                }
                            }
                            if has_token(rest, t) {
                                let j = choose|j: int|
                                    0 <= j < rest.len() && rest[j] is Token && #[trigger] token_at(
                                        rest,
                                        j,
                                    ) == t;
                                assert(token_at(tokens, j + 1) == t);
                                assert(tokens[j + 1] is Token);
                            }
                        }
                        assert(loaded.users =~= users_with_tokens(reg.users, tokens, user_id));
                    }
                }
            },
        }
    }
}

/// Whether `user_id` stands in the entries.
pub open spec fn has_user(entries: Seq<UserEntry>, user_id: Seq<char>) -> bool {
    exists|k: int| 0 <= k < entries.len() && (#[trigger] entries[k]).user_id@ == user_id
}

/// Whether `token` stands in the list of one of the entries.
pub open spec fn has_entry_token(entries: Seq<UserEntry>, token: Seq<char>) -> bool {
    exists|k: int, j: int| #[trigger]
        is_token_place(entries, k, j) && token_of(entries, k, j) == token
}

/// No user and no token of the entries is registered in `reg`.
pub open spec fn entries_fresh(reg: Registry, entries: Seq<UserEntry>) -> bool {
    &&& forall|k: int|
        0 <= k < entries.len() ==> !reg.groups.contains_key((#[trigger] entries[k]).user_id@)
    &&& forall|k: int, j: int| #[trigger]
        is_token_place(entries, k, j) ==> !reg.users.contains_key(token_of(entries, k, j))
}

/// What `loaded` holds once the entries were loaded into `reg` under
/// `group`: what `reg` held, each user of the entries under `group`, and
/// each token of the entries for the user that lists it.
pub open spec fn loaded_from(
    reg: Registry,
    group: Group,
    entries: Seq<UserEntry>,
    loaded: Registry,
) -> bool {
    &&& forall|user_id: Seq<char>| #[trigger]
        loaded.groups.contains_key(user_id) <==> reg.groups.contains_key(user_id) || has_user(
            entries,
            user_id,
        )
    &&& forall|user_id: Seq<char>| #[trigger]
        reg.groups.contains_key(user_id) ==> loaded.groups[user_id] == reg.groups[user_id]
    &&& forall|k: int|
        0 <= k < entries.len() ==> loaded.groups[(#[trigger] entries[k]).user_id@] == group
    &&& forall|token: Seq<char>| #[trigger]
        loaded.users.contains_key(token) <==> reg.users.contains_key(token) || has_entry_token(
            entries,
            token,
        )
    &&& forall|token: Seq<char>| #[trigger]
        reg.users.contains_key(token) ==> loaded.users[token] == reg.users[token]
    &&& forall|k: int, j: int| #[trigger]
        is_token_place(entries, k, j) ==> loaded.users[token_of(entries, k, j)]
            == entries[k].user_id@
}

/// How the places of a sequence of entries lie in it once its head is gone.
proof fn lemma_rest_places(entries: Seq<UserEntry>)
    requires
        entries.len() > 0,
    ensures
        forall|k: int|
            0 <= k < entries.drop_first().len() ==> #[trigger] entries.drop_first()[k]
                == entries[k + 1],
        forall|k: int, j: int| #[trigger]
            is_token_place(entries.drop_first(), k, j) <==> k >= 0 && is_token_place(
                entries,
                k + 1,
                j,
            ),
        forall|k: int, j: int|
            0 <= k < entries.drop_first().len() ==> #[trigger] token_of(
                entries.drop_first(),
                k,
                j,
            ) == token_of(
                entries,
                k + 1,
                j,
            ),
        forall|k: int, j: int|
            k >= 1 ==> (#[trigger] is_token_place(entries, k, j) <==> is_token_place(
                entries.drop_first(),
                k - 1,
                j,
            )),
        forall|k: int, j: int|
            1 <= k < entries.len() ==> #[trigger] token_of(entries, k, j) == token_of(
                entries.drop_first(),
                k - 1,
                j,
            ),
{
}

/// One step of validity: with a head that is a new user with valid new
/// tokens, the entries are valid and new to `reg` exactly where the rest is
/// valid and new to `reg` with the head loaded.
proof fn lemma_valid_step(reg: Registry, group: Group, entries: Seq<UserEntry>, mid: Registry)
    requires
        entries.len() > 0,
        entries[0].tokens is Array,
        !reg.groups.contains_key(entries[0].user_id@),
        tokens_valid(entry_tokens(entries[0])),
        tokens_fresh(reg, entry_tokens(entries[0])),
        mid.groups == reg.groups.insert(entries[0].user_id@, group),
        mid.users == users_with_tokens(reg.users, entry_tokens(entries[0]), entries[0].user_id@),
    ensures
        entries_valid(entries) && entries_fresh(reg, entries) <==> entries_valid(
            entries.drop_first(),
        ) && entries_fresh(mid, entries.drop_first()),
{
    let rest = entries.drop_first();
    let head = entry_tokens(entries[0]);
    lemma_rest_places(entries);
    assert forall|j: int| 0 <= j < head.len() implies has_token(head, #[trigger] token_at(head, j)) by {
        assert(head[j] is Token);
    }
    if entries_valid(entries) && entries_fresh(reg, entries) {
        assert(entries_valid(rest)) by {
            assert forall|k: int| 0 <= k < rest.len() implies (#[trigger] rest[k]).tokens is Array by {
                assert(entries[k + 1].tokens is Array);
            }
            assert forall|k: int, j: int| #[trigger] is_token_place(rest, k, j) implies entry_tokens(
                rest[k],
            )[j] is Token by {
                assert(is_token_place(entries, k + 1, j));
            }
            assert forall|k1: int, k2: int| 0 <= k1 < k2 < rest.len() implies (
            #[trigger] rest[k1]).user_id@ != (#[trigger] rest[k2]).user_id@ by {
                assert(entries[k1 + 1].user_id@ != entries[k2 + 1].user_id@);
            }
            assert forall|k1: int, j1: int, k2: int, j2: int|
                #[trigger] is_token_place(rest, k1, j1) && #[trigger] is_token_place(rest, k2, j2)
                    && (k1 != k2 || j1 != j2) implies token_of(rest, k1, j1) != token_of(
                rest,
                k2,
                j2,
            ) by {
                assert(is_token_place(entries, k1 + 1, j1));
                assert(is_token_place(entries, k2 + 1, j2));
            }
        }
        assert(entries_fresh(mid, rest)) by {
            assert forall|k: int| 0 <= k < rest.len() implies !mid.groups.contains_key(
                (#[trigger] rest[k]).user_id@,
            ) by {
                assert(entries[0].user_id@ != entries[k + 1].user_id@);
                assert(!reg.groups.contains_key(entries[k + 1].user_id@));
            }
            assert forall|k: int, j: int| #[trigger] is_token_place(rest, k, j) implies !mid.users.contains_key(
                token_of(rest, k, j),
            ) by {
                assert(is_token_place(entries, k + 1, j));
                let t = token_of(entries, k + 1, j);
                assert(!reg.users.contains_key(t));
                if has_token(head, t) {
                    let j0 = choose|j0: int|
                        0 <= j0 < head.len() && head[j0] is Token && #[trigger] token_at(head, j0)
                            == t;
                    assert(is_token_place(entries, 0, j0));
                    assert(token_of(entries, 0, j0) == t);
                }
            }
        }
    }
    if entries_valid(rest) && entries_fresh(mid, rest) {
        assert(entries_valid(entries)) by {
            assert forall|k: int| 0 <= k < entries.len() implies (#[trigger] entries[k]).tokens is Array by {
                if k > 0 {
                    assert(rest[k - 1].tokens is Array);
                }
            }
            assert forall|k: int, j: int| #[trigger] is_token_place(entries, k, j) implies entry_tokens(
                entries[k],
            )[j] is Token by {
                if k > 0 {
                    assert(is_token_place(rest, k - 1, j));
                }
            }
            assert forall|k1: int, k2: int| 0 <= k1 < k2 < entries.len() implies (
            #[trigger] entries[k1]).user_id@ != (#[trigger] entries[k2]).user_id@ by {
                if k1 == 0 {
                    assert(!mid.groups.contains_key(rest[k2 - 1].user_id@));
                } else {
                    assert(rest[k1 - 1].user_id@ != rest[k2 - 1].user_id@);
                }
            }
            assert forall|k1: int, j1: int, k2: int, j2: int|
                #[trigger] is_token_place(entries, k1, j1) && #[trigger] is_token_place(
                    entries,
                    k2,
                    j2,
                ) && (k1 != k2 || j1 != j2) implies token_of(entries, k1, j1) != token_of(
                entries,
                k2,
                j2,
            ) by {
                if k1 == 0 && k2 == 0 {
                    if j1 < j2 {
                        assert(token_at(head, j1) != token_at(head, j2));
                    } else {
                        assert(token_at(head, j2) != token_at(head, j1));
                    }
                } else if k1 == 0 {
                    assert(is_token_place(rest, k2 - 1, j2));
                    assert(!mid.users.contains_key(token_of(rest, k2 - 1, j2)));
                    assert(has_token(head, token_at(head, j1)));
                } else if k2 == 0 {
                    assert(is_token_place(rest, k1 - 1, j1));
                    assert(!mid.users.contains_key(token_of(rest, k1 - 1, j1)));
                    assert(has_token(head, token_at(head, j2)));
                } else {
                    assert(is_token_place(rest, k1 - 1, j1));
                    assert(is_token_place(rest, k2 - 1, j2));
                }
            }
        }
        assert(entries_fresh(reg, entries)) by {
            assert forall|k: int| 0 <= k < entries.len() implies !reg.groups.contains_key(
                (#[trigger] entries[k]).user_id@,
            ) by {
                if k > 0 {
                    assert(!mid.groups.contains_key(rest[k - 1].user_id@));
                }
            }
            assert forall|k: int, j: int| #[trigger] is_token_place(entries, k, j) implies !reg.users.contains_key(
                token_of(entries, k, j),
            ) by {
                if k > 0 {
                    assert(is_token_place(rest, k - 1, j));
                    assert(!mid.users.contains_key(token_of(rest, k - 1, j)));
                } else {
                    assert(!reg.users.contains_key(token_at(head, j)));
                }
            }
        }
    }
}

/// One step of loading: what holds of the rest loaded behind the head holds
/// of the whole loaded into `reg`.
proof fn lemma_loaded_step(
    reg: Registry,
    group: Group,
    entries: Seq<UserEntry>,
    mid: Registry,
    loaded: Registry,
)
    requires
        entries.len() > 0,
        entries[0].tokens is Array,
        !reg.groups.contains_key(entries[0].user_id@),
        tokens_valid(entry_tokens(entries[0])),
        tokens_fresh(reg, entry_tokens(entries[0])),
        mid.groups == reg.groups.insert(entries[0].user_id@, group),
        mid.users == users_with_tokens(reg.users, entry_tokens(entries[0]), entries[0].user_id@),
        loaded_from(mid, group, entries.drop_first(), loaded),
    ensures
        loaded_from(reg, group, entries, loaded),
{
    let rest = entries.drop_first();
    let head = entry_tokens(entries[0]);
    let head_id = entries[0].user_id@;
    lemma_rest_places(entries);
    assert forall|j: int| 0 <= j < head.len() implies has_token(head, #[trigger] token_at(head, j)) by {
        assert(head[j] is Token);
    }
    assert forall|user_id: Seq<char>| has_user(entries, user_id) <==> user_id == head_id || has_user(
        rest,
        user_id,
    ) by {
        if has_user(entries, user_id) {
            let k = choose|k: int|
                0 <= k < entries.len() && (#[trigger] entries[k]).user_id@ == user_id;
            if k > 0 {
                assert(rest[k - 1].user_id@ == user_id);
            }
        }
        if has_user(rest, user_id) {
            let k = choose|k: int| 0 <= k < rest.len() && (#[trigger] rest[k]).user_id@ == user_id;
            assert(entries[k + 1].user_id@ == user_id);
        }
        if user_id == head_id {
            assert(entries[0].user_id@ == user_id);
        }
    }
    assert forall|token: Seq<char>| has_entry_token(entries, token) <==> has_token(head, token)
        || has_entry_token(rest, token) by {
        if has_entry_token(entries, token) {
            let (k, j) = choose|k: int, j: int| #[trigger]
                is_token_place(entries, k, j) && token_of(entries, k, j) == token;
            if k > 0 {
                assert(is_token_place(rest, k - 1, j));
            } else {
                assert(token_at(head, j) == token);
            }
        }
        if has_entry_token(rest, token) {
            let (k, j) = choose|k: int, j: int| #[trigger]
                is_token_place(rest, k, j) && token_of(rest, k, j) == token;
            assert(is_token_place(entries, k + 1, j));
        }
        if has_token(head, token) {
            let j = choose|j: int|
                0 <= j < head.len() && head[j] is Token && #[trigger] token_at(head, j) == token;
            assert(is_token_place(entries, 0, j));
        }
    }
    assert forall|user_id: Seq<char>| #[trigger]
        loaded.groups.contains_key(user_id) <==> reg.groups.contains_key(user_id) || has_user(
            entries,
            user_id,
        ) by {
        assert(mid.groups.contains_key(user_id) <==> reg.groups.contains_key(user_id) || user_id
            == head_id);
    }
    assert forall|user_id: Seq<char>| #[trigger] reg.groups.contains_key(user_id) implies loaded.groups[user_id]
        == reg.groups[user_id] by {
        assert(mid.groups.contains_key(user_id));
    }
    assert forall|k: int| 0 <= k < entries.len() implies loaded.groups[(#[trigger] entries[k]).user_id@]
        == group by {
        if k == 0 {
            assert(mid.groups.contains_key(head_id));
        } else {
            assert(rest[k - 1] == entries[k]);
        }
    }
    assert forall|token: Seq<char>| #[trigger]
        loaded.users.contains_key(token) <==> reg.users.contains_key(token) || has_entry_token(
            entries,
            token,
        ) by {
        assert(mid.users.contains_key(token) <==> reg.users.contains_key(token) || has_token(
            head,
            token,
        ));
    }
    assert forall|token: Seq<char>| #[trigger] reg.users.contains_key(token) implies loaded.users[token]
        == reg.users[token] by {
        assert(mid.users.contains_key(token));
        if has_token(head, token) {
            let j = choose|j: int|
                0 <= j < head.len() && head[j] is Token && #[trigger] token_at(head, j) == token;
            assert(!reg.users.contains_key(token_at(head, j)));
        }
    }
    assert forall|k: int, j: int| #[trigger] is_token_place(entries, k, j) implies loaded.users[token_of(
        entries,
        k,
        j,
    )] == entries[k].user_id@ by {
        if k == 0 {
            let token = token_at(head, j);
            assert(has_token(head, token));
            assert(mid.users.contains_key(token));
        } else {
            assert(is_token_place(rest, k - 1, j));
            assert(rest[k - 1] == entries[k]);
        }
    }
}

/// The entries of a group load if and only if they are valid and new to the
/// registry. The registry then holds them beside what it held.
pub proof fn lemma_load_users(reg: Registry, group: Group, entries: Seq<UserEntry>)
    ensures
        spec_load_users(reg, group, entries) is Ok <==> entries_valid(entries) && entries_fresh(
            reg,
            entries,
        ),
        spec_load_users(reg, group, entries) matches Ok(loaded) ==> loaded_from(
            reg,
            group,
            entries,
            loaded,
        ),
    decreases entries.len(),
{
    if entries.len() == 0 {
    } else {
        let entry = entries[0];
        let rest = entries.drop_first();
        if reg.groups.contains_key(entry.user_id@) {
        } else {
            match entry.tokens {
                TokensValue::Other => {},
                TokensValue::Array(tokens) => {
                    let with_user = reg.with_user(entry.user_id@, group);
                    let head = entry_tokens(entry);
                    lemma_load_tokens(with_user, group, entry.user_id@, head);
                    if entries_valid(entries) && entries_fresh(reg, entries) {
                        assert(tokens_valid(head)) by {
                            assert forall|j: int| 0 <= j < head.len() implies #[trigger] head[j] is Token by {
                                assert(is_token_place(entries, 0, j));
                            }
                            assert forall|j1: int, j2: int| 0 <= j1 < j2 < head.len() implies #[trigger] token_at(
                                head,
                                j1,
                            ) != #[trigger] token_at(head, j2) by {
                                assert(is_token_place(entries, 0, j1));
                                assert(is_token_place(entries, 0, j2));
                                assert(token_of(entries, 0, j1) != token_of(entries, 0, j2));
                            }
                        }
                        assert(tokens_fresh(with_user, head)) by {
                            assert forall|j: int| 0 <= j < head.len() implies !with_user.users.contains_key(
                                #[trigger] token_at(head, j),
                            ) by {
                                assert(is_token_place(entries, 0, j));
                                assert(token_of(entries, 0, j) == token_at(head, j));
                            }
                        }
                    }
                    match spec_load_tokens(with_user, group, entry.user_id@, head) {
                        Err(_) => {},
                        Ok(mid) => {
                            assert(tokens_fresh(reg, head)) by {
                                assert forall|j: int| 0 <= j < head.len() implies !reg.users.contains_key(
                                    #[trigger] token_at(head, j),
                                ) by {
                                    assert(!with_user.users.contains_key(token_at(head, j)));
                                }
                            }
                            lemma_valid_step(reg, group, entries, mid);
                            lemma_load_users(mid, group, rest);
                            if let Ok(loaded) = spec_load_users(mid, group, rest) {
                                lemma_loaded_step(reg, group, entries, mid, loaded);
                            }
                        },
                    }
                },
            }
        }
    }
}

/// How the places of two sequences of entries lie in the two joined.
pub proof fn lemma_joined_places(first: Seq<UserEntry>, second: Seq<UserEntry>)
    ensures
        forall|k: int| 0 <= k < first.len() ==> #[trigger] (first + second)[k] == first[k],
        forall|k: int|
            first.len() <= k < first.len() + second.len() ==> #[trigger] (first + second)[k]
                == second[k - first.len()],
        forall|k: int, j: int| #[trigger]
            is_token_place(first + second, k, j) <==> is_token_place(first, k, j) || is_token_place(
                second,
                k - first.len(),
                j,
            ),
        forall|k: int, j: int|
            0 <= k < first.len() ==> #[trigger] token_of(first + second, k, j) == token_of(
                first,
                k,
                j,
            ),
        forall|k: int, j: int|
            first.len() <= k < first.len() + second.len() ==> #[trigger] token_of(
                first + second,
                k,
                j,
            ) == token_of(second, k - first.len(), j),
{
}

/// Two sequences of entries joined are valid exactly where each is valid
/// and the second is new to what the first has loaded.
pub proof fn lemma_valid_joined(
    first: Seq<UserEntry>,
    second: Seq<UserEntry>,
    group: Group,
    mid: Registry,
)
    requires
        entries_valid(first),
        loaded_from(Registry::empty(), group, first, mid),
    ensures
        entries_valid(first + second) <==> entries_valid(second) && entries_fresh(mid, second),
{
    let all = first + second;
    let n = first.len() as int;
    lemma_joined_places(first, second);
    if entries_valid(all) {
        assert(entries_valid(second)) by {
            assert forall|k: int| 0 <= k < second.len() implies (#[trigger] second[k]).tokens is Array by {
                assert(all[k + n].tokens is Array);
            }
            assert forall|k: int, j: int| #[trigger] is_token_place(second, k, j) implies entry_tokens(
                second[k],
            )[j] is Token by {
                assert(is_token_place(all, k + n, j));
            }
            assert forall|k1: int, k2: int| 0 <= k1 < k2 < second.len() implies (
            #[trigger] second[k1]).user_id@ != (#[trigger] second[k2]).user_id@ by {
                assert(all[k1 + n].user_id@ != all[k2 + n].user_id@);
            }
            assert forall|k1: int, j1: int, k2: int, j2: int|
                #[trigger] is_token_place(second, k1, j1) && #[trigger] is_token_place(
                    second,
                    k2,
                    j2,
                ) && (k1 != k2 || j1 != j2) implies token_of(second, k1, j1) != token_of(
                second,
                k2,
                j2,
            ) by {
                assert(is_token_place(all, k1 + n, j1));
                assert(is_token_place(all, k2 + n, j2));
                assert(token_of(all, k1 + n, j1) == token_of(second, k1, j1));
                assert(token_of(all, k2 + n, j2) == token_of(second, k2, j2));
            }
        }
        assert(entries_fresh(mid, second)) by {
            assert forall|k: int| 0 <= k < second.len() implies !mid.groups.contains_key(
                (#[trigger] second[k]).user_id@,
            ) by {
                let user_id = second[k].user_id@;
                if has_user(first, user_id) {
                    let k0 = choose|k0: int|
                        0 <= k0 < first.len() && (#[trigger] first[k0]).user_id@ == user_id;
                    assert(all[k0].user_id@ != all[k + n].user_id@);
                }
            }
            assert forall|k: int, j: int| #[trigger] is_token_place(second, k, j) implies !mid.users.contains_key(
                token_of(second, k, j),
            ) by {
                let token = token_of(second, k, j);
                assert(is_token_place(all, k + n, j));
                assert(token_of(all, k + n, j) == token);
                if has_entry_token(first, token) {
                    let (k0, j0) = choose|k0: int, j0: int| #[trigger]
                        is_token_place(first, k0, j0) && token_of(first, k0, j0) == token;
                    assert(is_token_place(all, k0, j0));
                    assert(token_of(all, k0, j0) == token);
                }
            }
        }
    }
    if entries_valid(second) && entries_fresh(mid, second) {
        assert(entries_valid(all)) by {
            assert forall|k: int| 0 <= k < all.len() implies (#[trigger] all[k]).tokens is Array by {
                if k < n {
                    assert(first[k].tokens is Array);
                } else {
                    assert(second[k - n].tokens is Array);
                }
            }
            assert forall|k: int, j: int| #[trigger] is_token_place(all, k, j) implies entry_tokens(
                all[k],
            )[j] is Token by {
                if k < n {
                    assert(is_token_place(first, k, j));
                } else {
                    assert(is_token_place(second, k - n, j));
                }
            }
            assert forall|k1: int, k2: int| 0 <= k1 < k2 < all.len() implies (
            #[trigger] all[k1]).user_id@ != (#[trigger] all[k2]).user_id@ by {
                if k2 < n {
                    assert(first[k1].user_id@ != first[k2].user_id@);
                } else if k1 < n {
                    assert(has_user(first, first[k1].user_id@));
                    assert(mid.groups.contains_key(first[k1].user_id@));
                    assert(!mid.groups.contains_key(second[k2 - n].user_id@));
                } else {
                    assert(second[k1 - n].user_id@ != second[k2 - n].user_id@);
                }
            }
            assert forall|k1: int, j1: int, k2: int, j2: int|
                #[trigger] is_token_place(all, k1, j1) && #[trigger] is_token_place(all, k2, j2)
                    && (k1 != k2 || j1 != j2) implies token_of(all, k1, j1) != token_of(
                all,
                k2,
                j2,
            ) by {
                if k1 < n && k2 < n {
                    assert(is_token_place(first, k1, j1));
                    assert(is_token_place(first, k2, j2));
                } else if k1 < n {
                    assert(is_token_place(first, k1, j1));
                    assert(is_token_place(second, k2 - n, j2));
                    assert(has_entry_token(first, token_of(first, k1, j1)));
                    assert(mid.users.contains_key(token_of(first, k1, j1)));
                    assert(!mid.users.contains_key(token_of(second, k2 - n, j2)));
                } else if k2 < n {
                    assert(is_token_place(first, k2, j2));
                    assert(is_token_place(second, k1 - n, j1));
                    assert(has_entry_token(first, token_of(first, k2, j2)));
                    assert(mid.users.contains_key(token_of(first, k2, j2)));
                    assert(!mid.users.contains_key(token_of(second, k1 - n, j1)));
                } else {
                    assert(is_token_place(second, k1 - n, j1));
                    assert(is_token_place(second, k2 - n, j2));
                }
            }
        }
    }
}

/// A user or a token stands in two sequences of entries joined exactly
/// where it stands in one of them.
pub proof fn lemma_joined_has(first: Seq<UserEntry>, second: Seq<UserEntry>)
    ensures
        forall|user_id: Seq<char>| #[trigger]
            has_user(first + second, user_id) <==> has_user(first, user_id) || has_user(
                second,
                user_id,
            ),
        forall|token: Seq<char>| #[trigger]
            has_entry_token(first + second, token) <==> has_entry_token(first, token)
                || has_entry_token(second, token),
{
    let all = first + second;
    let n = first.len() as int;
    lemma_joined_places(first, second);
    assert forall|user_id: Seq<char>| #[trigger]
        has_user(all, user_id) <==> has_user(first, user_id) || has_user(second, user_id) by {
        if has_user(all, user_id) {
            let k = choose|k: int| 0 <= k < all.len() && (#[trigger] all[k]).user_id@ == user_id;
            if k < n {
                assert(first[k].user_id@ == user_id);
            } else {
                assert(second[k - n].user_id@ == user_id);
            }
        }
        if has_user(first, user_id) {
            let k = choose|k: int| 0 <= k < first.len() && (#[trigger] first[k]).user_id@ == user_id;
            assert(all[k].user_id@ == user_id);
        }
        if has_user(second, user_id) {
            let k = choose|k: int|
                0 <= k < second.len() && (#[trigger] second[k]).user_id@ == user_id;
            assert(all[k + n].user_id@ == user_id);
        }
    }
    assert forall|token: Seq<char>| #[trigger]
        has_entry_token(all, token) <==> has_entry_token(first, token) || has_entry_token(
            second,
            token,
        ) by {
        if has_entry_token(all, token) {
            let (k, j) = choose|k: int, j: int| #[trigger]
                is_token_place(all, k, j) && token_of(all, k, j) == token;
            if k < n {
                assert(is_token_place(first, k, j));
            } else {
                assert(is_token_place(second, k - n, j));
            }
        }
        if has_entry_token(first, token) {
            let (k, j) = choose|k: int, j: int| #[trigger]
                is_token_place(first, k, j) && token_of(first, k, j) == token;
            assert(is_token_place(all, k, j));
        }
        if has_entry_token(second, token) {
            let (k, j) = choose|k: int, j: int| #[trigger]
                is_token_place(second, k, j) && token_of(second, k, j) == token;
            assert(is_token_place(all, k + n, j));
            assert(token_of(all, k + n, j) == token);
        }
    }
}

/// Loading a list of tokens is loading its first `j` elements and then,
/// if that went well, the rest.
proof fn lemma_load_tokens_split(
    reg: Registry,
    group: Group,
    user_id: Seq<char>,
    tokens: Seq<TokenValue>,
    j: int,
)
    requires
        0 <= j <= tokens.len(),
    ensures
        spec_load_tokens(reg, group, user_id, tokens) == match spec_load_tokens(
            reg,
            group,
            user_id,
            tokens.take(j),
        ) {
            Err(e) => Err(e),
            Ok(mid) => spec_load_tokens(mid, group, user_id, tokens.skip(j)),
        },
    decreases j,
{
    if j == 0 {
        assert(tokens.skip(0) =~= tokens);
    } else {
        assert(tokens.take(j)[0] == tokens[0]);
        assert(tokens.take(j).drop_first() =~= tokens.drop_first().take(j - 1));
        assert(tokens.skip(j) =~= tokens.drop_first().skip(j - 1));
        if let TokenValue::Token(token) = tokens[0] {
            if !reg.users.contains_key(token@) {
                lemma_load_tokens_split(
                    reg.with_token(token@, user_id),
                    group,
                    user_id,
                    tokens.drop_first(),
                    j - 1,
                );
            }
        }
    }
}

/// Loading a sequence of entries is loading its first `k` entries and
/// then, if that went well, the rest.
proof fn lemma_load_users_split(reg: Registry, group: Group, entries: Seq<UserEntry>, k: int)
    requires
        0 <= k <= entries.len(),
    ensures
        spec_load_users(reg, group, entries) == match spec_load_users(reg, group, entries.take(k)) {
            Err(e) => Err(e),
            Ok(mid) => spec_load_users(mid, group, entries.skip(k)),
        },
    decreases k,
{
    if k == 0 {
        assert(entries.skip(0) =~= entries);
    } else {
        let entry = entries[0];
        assert(entries.take(k)[0] == entry);
        assert(entries.take(k).drop_first() =~= entries.drop_first().take(k - 1));
        assert(entries.skip(k) =~= entries.drop_first().skip(k - 1));
        if !reg.groups.contains_key(entry.user_id@) {
            if let TokensValue::Array(tokens) = entry.tokens {
                if let Ok(loaded) = spec_load_tokens(
                    reg.with_user(entry.user_id@, group),
                    group,
                    entry.user_id@,
                    tokens@,
                ) {
                    lemma_load_users_split(loaded, group, entries.drop_first(), k - 1);
                }
            }
        }
    }
}

/// A prefix of valid entries is valid.
pub proof fn lemma_valid_take(entries: Seq<UserEntry>, k: int)
    requires
        0 <= k <= entries.len(),
        entries_valid(entries),
    ensures
        entries_valid(entries.take(k)),
{
    let prefix = entries.take(k);
    assert forall|k1: int| 0 <= k1 < prefix.len() implies (#[trigger] prefix[k1]).tokens is Array by {
        assert(entries[k1].tokens is Array);
    }
    assert forall|k1: int, j: int| #[trigger] is_token_place(prefix, k1, j) implies entry_tokens(
        prefix[k1],
    )[j] is Token by {
        assert(is_token_place(entries, k1, j));
    }
    assert forall|k1: int, k2: int| 0 <= k1 < k2 < prefix.len() implies (
    #[trigger] prefix[k1]).user_id@ != (#[trigger] prefix[k2]).user_id@ by {
        assert(entries[k1].user_id@ != entries[k2].user_id@);
    }
    assert forall|k1: int, j1: int, k2: int, j2: int|
        #[trigger] is_token_place(prefix, k1, j1) && #[trigger] is_token_place(prefix, k2, j2) && (
        k1 != k2 || j1 != j2) implies token_of(prefix, k1, j1) != token_of(prefix, k2, j2) by {
        assert(is_token_place(entries, k1, j1));
        assert(is_token_place(entries, k2, j2));
    }
}

/// Where the entries before place `k` load and the user at place `k` is
/// registered by then, loading ends there with `DuplicateUser`.
pub proof fn lemma_table_duplicate_user(reg: Registry, group: Group, entries: Seq<UserEntry>, k: int)
    requires
        0 <= k < entries.len(),
        entries_valid(entries.take(k)),
        entries_fresh(reg, entries.take(k)),
        reg.groups.contains_key(entries[k].user_id@) || has_user(
            entries.take(k),
            entries[k].user_id@,
        ),
    ensures
        spec_load_users(reg, group, entries) == Err::<Registry, ConfigErrorView>(
            ConfigErrorView::DuplicateUser {
                group,
                user_id: entries[k].user_id@,
                dupe: if reg.groups.contains_key(entries[k].user_id@) {
                    reg.groups[entries[k].user_id@]
                } else {
                    group
                },
            },
        ),
{
    let prefix = entries.take(k);
    let user_id = entries[k].user_id@;
    lemma_load_users(reg, group, prefix);
    lemma_load_users_split(reg, group, entries, k);
    let mid = spec_load_users(reg, group, prefix)->Ok_0;
    assert(entries.skip(k)[0] == entries[k]);
    assert(mid.groups.contains_key(user_id));
    if !reg.groups.contains_key(user_id) {
        let k0 = choose|k0: int| 0 <= k0 < prefix.len() && (#[trigger] prefix[k0]).user_id@ == user_id;
        assert(mid.groups[prefix[k0].user_id@] == group);
    }
}

/// Where all before place `j` of the entry at place `k` loads, and the
/// token at that place is registered by then, loading ends there with
/// `DuplicateToken`, which names the user that the token was registered for.
pub proof fn lemma_table_duplicate_token(
    reg: Registry,
    group: Group,
    entries: Seq<UserEntry>,
    k: int,
    j: int,
)
    requires
        is_token_place(entries, k, j),
        entries_valid(entries.take(k)),
        entries_fresh(reg, entries.take(k)),
        !reg.groups.contains_key(entries[k].user_id@),
        !has_user(entries.take(k), entries[k].user_id@),
        tokens_valid(entry_tokens(entries[k]).take(j)),
        forall|j0: int|
            0 <= j0 < j ==> !reg.users.contains_key(
                #[trigger] token_at(entry_tokens(entries[k]), j0),
            ) && !has_entry_token(entries.take(k), token_at(entry_tokens(entries[k]), j0)),
        entry_tokens(entries[k])[j] is Token,
        reg.users.contains_key(token_of(entries, k, j)) || has_entry_token(
            entries.take(k),
            token_of(entries, k, j),
        ) || has_token(entry_tokens(entries[k]).take(j), token_of(entries, k, j)),
    ensures
        spec_load_users(reg, group, entries) matches Err(
            ConfigErrorView::DuplicateToken { group: in_group, user_id, owner, token },
        ) && in_group == group && user_id == entries[k].user_id@ && token == token_of(
            entries,
            k,
            j,
        ) && (has_token(entry_tokens(entries[k]).take(j), token) ==> owner == user_id) && (
        reg.users.contains_key(token) ==> owner == reg.users[token]) && (forall|k0: int, j0: int|
         #[trigger]
            is_token_place(entries.take(k), k0, j0) && token_of(entries.take(k), k0, j0) == token
                ==> owner == entries[k0].user_id@),
{
    let prefix = entries.take(k);
    let entry = entries[k];
    let tokens = entry_tokens(entry);
    let before = tokens.take(j);
    let token = token_of(entries, k, j);
    lemma_load_users(reg, group, prefix);
    lemma_load_users_split(reg, group, entries, k);
    let mid = spec_load_users(reg, group, prefix)->Ok_0;
    assert(entries.skip(k)[0] == entry);
    assert(!mid.groups.contains_key(entry.user_id@));
    let with_user = mid.with_user(entry.user_id@, group);
    assert forall|j0: int| 0 <= j0 < before.len() implies #[trigger] token_at(before, j0)
        == token_at(tokens, j0) by {}
    assert(tokens_fresh(with_user, before)) by {
        assert forall|j0: int| 0 <= j0 < before.len() implies !with_user.users.contains_key(
            #[trigger] token_at(before, j0),
        ) by {
            assert(!reg.users.contains_key(token_at(tokens, j0)));
        }
    }
    lemma_load_tokens(with_user, group, entry.user_id@, before);
    lemma_load_tokens_split(with_user, group, entry.user_id@, tokens, j);
    let mid2 = spec_load_tokens(with_user, group, entry.user_id@, before)->Ok_0;
    assert(tokens.skip(j)[0] == tokens[j]);
    assert(mid2.users.contains_key(token));
    if has_token(before, token) {
    } else {
        assert(mid2.users[token] == mid.users[token]);
        assert forall|k0: int, j0: int| #[trigger]
            is_token_place(prefix, k0, j0) && token_of(prefix, k0, j0) == token implies mid.users[token]
            == entries[k0].user_id@ by {
            assert(prefix[k0] == entries[k0]);
        }
    }
    if reg.users.contains_key(token) {
        if has_token(before, token) {
            let j0 = choose|j0: int|
                0 <= j0 < before.len() && before[j0] is Token && #[trigger] token_at(before, j0)
                    == token;
            assert(!reg.users.contains_key(token_at(tokens, j0)));
        }
    }
    assert forall|k0: int, j0: int| #[trigger]
        is_token_place(prefix, k0, j0) && token_of(prefix, k0, j0) == token implies !has_token(
        before,
        token,
    ) by {
        if has_token(before, token) {
            let j1 = choose|j1: int|
                0 <= j1 < before.len() && before[j1] is Token && #[trigger] token_at(before, j1)
                    == token;
            assert(!has_entry_token(prefix, token_at(tokens, j1)));
        }
    }
}

} // verus!

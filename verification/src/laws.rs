//! The laws of the manager, stated over the same spec functions its
//! contracts use: what a caller may conclude by chaining calls.

use vstd::prelude::*;

use crate::manager::all_applied;
use crate::manager::cache_matches_merge;
use crate::manager::cache_upserted;
use crate::manager::EnvironmentManager;
use crate::store::SlotView;
use crate::variable::EnvScope;
use crate::variable::VarView;

verus! {

/// A refused mutation cannot be seen in the store: a `System`-scoped add,
/// update or delete leaves the manager untouched (their contracts), and an
/// untouched manager's store reports exactly the entries it reported
/// before, in both scopes.
pub proof fn lemma_untouched_store_reports_same(pre: EnvironmentManager, post: EnvironmentManager)
    requires
        EnvironmentManager::untouched(pre, post),
    ensures
        post.registry_manager.visible(EnvScope::User) == pre.registry_manager.visible(
            EnvScope::User,
        ),
        post.registry_manager.visible(EnvScope::System) == pre.registry_manager.visible(
            EnvScope::System,
        ),
{
}

/// A store write is idempotent: writing the same value again leaves the
/// namespace exactly as one write leaves it.
pub proof fn lemma_write_idempotent(
    ns: Map<Seq<char>, SlotView>,
    name: Seq<char>,
    value: Seq<char>,
)
    ensures
        ns.insert(name, (SlotView { value, ok: true })).insert(
            name,
            (SlotView { value, ok: true }),
        ) == ns.insert(name, (SlotView { value, ok: true })),
{
    assert(ns.insert(name, (SlotView { value, ok: true })).insert(
        name,
        (SlotView { value, ok: true }),
    ) =~= ns.insert(name, (SlotView { value, ok: true })));
}

/// After a successful `User`-scoped add of (`name`, `value`) — whose
/// contract gives `cache_upserted` — a lookup of `name` yields `value`;
/// the same holds of update with the new value.
pub proof fn lemma_upsert_then_get(
    pre: Map<Seq<char>, VarView>,
    post: Map<Seq<char>, VarView>,
    name: Seq<char>,
    value: Seq<char>,
    scope: EnvScope,
)
    requires
        cache_upserted(pre, post, name, value, scope),
    ensures
        post.contains_key(name),
        post[name].value == value,
        post[name].scope == scope,
{
}

/// After a successful delete of `name` — whose contract removes it from
/// the cache — a lookup of `name` is absent.
pub proof fn lemma_delete_then_get_absent(pre: Map<Seq<char>, VarView>, name: Seq<char>)
    ensures
        !pre.remove(name).contains_key(name),
{
}

/// After a successful `User`-scoped delete of `name`, a fresh full load
/// also omits `name`, as long as the `System` namespace holds no entry of
/// that name: the delete contract removes `name` from the `User`
/// namespace, and the merge of a full load holds exactly the names of the
/// two namespaces.
pub proof fn lemma_delete_then_reload_absent(
    post_delete: EnvironmentManager,
    reloaded: Map<Seq<char>, VarView>,
    name: Seq<char>,
)
    requires
        !post_delete.registry_manager.visible(EnvScope::User).contains_key(name),
        !post_delete.registry_manager.visible(EnvScope::System).contains_key(name),
        cache_matches_merge(
            reloaded,
            post_delete.registry_manager.visible(EnvScope::User),
            post_delete.registry_manager.visible(EnvScope::System),
        ),
    ensures
        !reloaded.contains_key(name),
{
}

/// A full load is idempotent absent intervening mutation: two caches built
/// over the same store reports hold the same names, and agree on value and
/// scope everywhere; only the timestamps are the clock's.
pub proof fn lemma_load_all_idempotent(
    c1: Map<Seq<char>, VarView>,
    c2: Map<Seq<char>, VarView>,
    user: Map<Seq<char>, Seq<char>>,
    system: Map<Seq<char>, Seq<char>>,
)
    requires
        cache_matches_merge(c1, user, system),
        cache_matches_merge(c2, user, system),
    ensures
        forall|k: Seq<char>| #[trigger] c1.contains_key(k) <==> #[trigger] c2.contains_key(k),
        forall|k: Seq<char>|
            #[trigger] c1.contains_key(k) ==> c1[k].name == c2[k].name && c1[k].value == c2[k].value
                && c1[k].scope == c2[k].scope,
{
    assert forall|k: Seq<char>| #[trigger] c1.contains_key(k) implies c1[k].name == c2[k].name
        && c1[k].value == c2[k].value && c1[k].scope == c2[k].scope by {
        if system.contains_key(k) {
        } else {
            assert(user.contains_key(k));
        }
    }
}

/// On a name collision across the two namespaces, the `System` entry wins
/// the merge: the fixed insertion order, `User` first, `System` second.
pub proof fn lemma_merge_system_wins(
    c: Map<Seq<char>, VarView>,
    user: Map<Seq<char>, Seq<char>>,
    system: Map<Seq<char>, Seq<char>>,
    k: Seq<char>,
)
    requires
        cache_matches_merge(c, user, system),
        user.contains_key(k),
        system.contains_key(k),
    ensures
        c.contains_key(k),
        c[k].scope == EnvScope::System,
        c[k].value == system[k],
{
}

/// After a successful apply of a profile — whose contract gives
/// `all_applied` — every one of its assignments is independently
/// retrievable from the cache, with the profile's value and scope.
pub proof fn lemma_apply_then_get(
    post: EnvironmentManager,
    vars: Map<Seq<char>, Seq<char>>,
    scope: EnvScope,
    k: Seq<char>,
)
    requires
        all_applied(post, vars, scope),
        vars.contains_key(k),
    ensures
        post.cache@.contains_key(k),
        post.cache@[k].value == vars[k],
        post.cache@[k].scope == scope,
{
}

/// Disabling a profile and then applying it fails before any write: the
/// toggle contract flips the flag without store contact, the apply of a
/// disabled profile is refused untouched, and so the store reports exactly
/// what it reported before the toggle.
pub proof fn lemma_toggle_off_then_apply_writes_nothing(
    pre: EnvironmentManager,
    mid: EnvironmentManager,
    post: EnvironmentManager,
)
    requires
        EnvironmentManager::same_store(pre, mid),
        EnvironmentManager::untouched(mid, post),
    ensures
        post.registry_manager.visible(EnvScope::User) == pre.registry_manager.visible(
            EnvScope::User,
        ),
        post.registry_manager.visible(EnvScope::System) == pre.registry_manager.visible(
            EnvScope::System,
        ),
{
}

} // verus!

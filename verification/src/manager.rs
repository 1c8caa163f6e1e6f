//! The environment manager: the sole mutation path over the store, owner of
//! the in-memory cache, enforcer of the scope-safety invariant, and
//! orchestrator of change notification.
//!
//! The central invariant: a mutation (add, update, delete) succeeds only for
//! `User` scope; any attempt against `System` scope fails with
//! `PermissionDenied` and leaves the store untouched. Reads of `System`
//! entries are fully allowed. The cache never diverges from what the store
//! would report for the entries it holds.
//!
//! Of the two viable lock-duration disciplines the simple one is used
//! here: the manager is mutated through exclusive references, so the cache
//! is held across each store call and never needs revalidation.

use vstd::prelude::*;

use crate::assoc::lemma_map_of_dom;
use crate::assoc::lemma_map_of_index;
use crate::error::EnvError;
use crate::error::EnvResult;
use crate::profile::EnvProfiles;
use crate::profile::ProfileView;
use crate::refresh::EnvironmentRefresher;
use crate::store::entries_report;
use crate::store::other_scope;
use crate::store::RegistryManager;
use crate::store::SlotView;
use crate::text::lower_of;
use crate::variable::check_name;
use crate::variable::filter_matches;
use crate::variable::filter_scope;
use crate::variable::valid_name;
use crate::variable::views_of;
use crate::variable::EnvScope;
use crate::variable::EnvVariable;
use crate::variable::EnvVariables;
use crate::variable::VarView;

verus! {

/// `post` is `pre` with the entry for `name` set to (`name`, `value`,
/// `scope`) and every other entry untouched; the new entry's timestamps are
/// whatever the clock gave.
pub open spec fn cache_upserted(
    pre: Map<Seq<char>, VarView>,
    post: Map<Seq<char>, VarView>,
    name: Seq<char>,
    value: Seq<char>,
    scope: EnvScope,
) -> bool {
    &&& post.contains_key(name)
    &&& post[name].name == name
    &&& post[name].value == value
    &&& post[name].scope == scope
    &&& forall|k: Seq<char>|
        k != name ==> ((#[trigger] post.contains_key(k)) <==> pre.contains_key(k)) && (
        post.contains_key(k) ==> post[k] == pre[k])
}

/// `c` is the merge that a full load builds from the two namespace reports:
/// it holds every name of either namespace, and on a collision the `System`
/// entry wins, the fixed merge order.
pub open spec fn cache_matches_merge(
    c: Map<Seq<char>, VarView>,
    user: Map<Seq<char>, Seq<char>>,
    system: Map<Seq<char>, Seq<char>>,
) -> bool {
    &&& forall|k: Seq<char>|
        (#[trigger] c.contains_key(k)) <==> (user.contains_key(k) || system.contains_key(k))
    &&& forall|k: Seq<char>|
        #[trigger] system.contains_key(k) ==> c.contains_key(k) && c[k].name == k
            && c[k].scope == EnvScope::System && c[k].value == system[k]
    &&& forall|k: Seq<char>|
        #[trigger] user.contains_key(k) && !system.contains_key(k) ==> c.contains_key(k)
            && c[k].name == k && c[k].scope == EnvScope::User && c[k].value == user[k]
}

/// The store namespace entry for `k` reports the same as before.
pub open spec fn ns_same_at(
    pre: Map<Seq<char>, SlotView>,
    post: Map<Seq<char>, SlotView>,
    k: Seq<char>,
) -> bool {
    (post.contains_key(k) <==> pre.contains_key(k)) && (pre.contains_key(k) ==> post[k] == pre[k])
}

/// The cache entry for `k` is the same as before.
pub open spec fn cache_same_at(
    pre: Map<Seq<char>, VarView>,
    post: Map<Seq<char>, VarView>,
    k: Seq<char>,
) -> bool {
    (post.contains_key(k) <==> pre.contains_key(k)) && (pre.contains_key(k) ==> post[k] == pre[k])
}

/// The assignment `k = value` stands applied: written to the namespace of
/// `scope` and upserted in the cache.
pub open spec fn applied_at(
    post: EnvironmentManager,
    scope: EnvScope,
    k: Seq<char>,
    value: Seq<char>,
) -> bool {
    &&& post.registry_manager.ns(scope).contains_key(k)
    &&& post.registry_manager.ns(scope)[k] == (SlotView { value, ok: true })
    &&& post.cache@.contains_key(k)
    &&& post.cache@[k].name == k
    &&& post.cache@[k].scope == scope
    &&& post.cache@[k].value == value
}

/// Every assignment of `vars` stands applied in `scope`.
pub open spec fn all_applied(
    post: EnvironmentManager,
    vars: Map<Seq<char>, Seq<char>>,
    scope: EnvScope,
) -> bool {
    forall|k: Seq<char>| #[trigger] vars.contains_key(k) ==> applied_at(post, scope, k, vars[k])
}

/// Application touched nothing outside the assignments of `vars`: the other
/// namespace and the flags are as before, entries outside `vars` are as
/// before, and an entry of `vars` is either applied or still as before
/// (application is not transactional: a mid-iteration store failure leaves
/// the prior assignments applied).
pub open spec fn applied_within(
    pre: EnvironmentManager,
    post: EnvironmentManager,
    vars: Map<Seq<char>, Seq<char>>,
    scope: EnvScope,
) -> bool {
    &&& post.registry_manager.ns(other_scope(scope)) == pre.registry_manager.ns(
        other_scope(scope),
    )
    &&& post.registry_manager.same_flags(pre.registry_manager)
    &&& forall|k: Seq<char>|
        !vars.contains_key(k) ==> ns_same_at(
            pre.registry_manager.ns(scope),
            post.registry_manager.ns(scope),
            k,
        ) && (#[trigger] cache_same_at(pre.cache@, post.cache@, k))
    &&& forall|k: Seq<char>|
        #[trigger] vars.contains_key(k) ==> applied_at(post, scope, k, vars[k]) || (ns_same_at(
            pre.registry_manager.ns(scope),
            post.registry_manager.ns(scope),
            k,
        ) && cache_same_at(pre.cache@, post.cache@, k))
}

/// The permission-gated mutation manager.
#[derive(Debug)]
pub struct EnvironmentManager {
    pub registry_manager: RegistryManager,
    pub refresher: EnvironmentRefresher,
    pub cache: EnvVariables,
    pub cache_loaded: bool,
    pub profiles: EnvProfiles,
    pub auto_refresh: bool,
}

impl EnvironmentManager {
    /// Every cache entry is present, with its value, in the store namespace
    /// of its scope: the cache never diverges from what the store would
    /// report for the entries it holds.
    pub open spec fn cache_consistent(self) -> bool {
        forall|k: Seq<char>|
            #[trigger] self.cache@.contains_key(k) ==> self.registry_manager.visible(
                self.cache@[k].scope,
            ).contains_key(k) && self.registry_manager.visible(self.cache@[k].scope)[k]
                == self.cache@[k].value
    }

    pub open spec fn wf(self) -> bool {
        &&& self.registry_manager.wf()
        &&& self.cache.wf()
        &&& self.profiles.wf()
        &&& self.cache_consistent()
    }

    /// The store contents and flags are as before.
    pub open spec fn same_store(pre: Self, post: Self) -> bool {
        post.registry_manager.unchanged_from(pre.registry_manager)
    }

    /// Nothing observable changed: store, cache, profiles, notifier and
    /// settings are as before.
    pub open spec fn untouched(pre: Self, post: Self) -> bool {
        &&& Self::same_store(pre, post)
        &&& post.cache@ == pre.cache@
        &&& post.cache_loaded == pre.cache_loaded
        &&& post.profiles@ == pre.profiles@
        &&& post.refresher == pre.refresher
        &&& post.auto_refresh == pre.auto_refresh
    }

    /// A manager over a fresh store and notifier.
    pub fn new(auto_refresh: bool) -> (r: Self)
        ensures
            r.wf(),
            !r.cache_loaded,
            r.auto_refresh == auto_refresh,
            r.cache@ == Map::<Seq<char>, VarView>::empty(),
            r.profiles@.dom() == Set::<Seq<char>>::empty(),
            r.registry_manager.user_available,
            r.registry_manager.system_available,
            !r.registry_manager.system_writable,
            !r.refresher.elevated,
            r.refresher.broadcast_ok,
    {
        let r = EnvironmentManager {
            registry_manager: RegistryManager::new(),
            refresher: EnvironmentRefresher::new(),
            cache: EnvVariables::new(),
            cache_loaded: false,
            profiles: EnvProfiles::new(),
            auto_refresh,
        };
        proof {
            assert(r.profiles@.dom() =~= Set::<Seq<char>>::empty());
        }
        r
    }

    /// A manager over an injected store and notifier, prepared by the
    /// surrounding program: the explicit init path of the state handle.
    pub fn with_parts(
        registry_manager: RegistryManager,
        refresher: EnvironmentRefresher,
        auto_refresh: bool,
    ) -> (r: Self)
        requires
            registry_manager.wf(),
        ensures
            r.wf(),
            !r.cache_loaded,
            r.auto_refresh == auto_refresh,
            r.cache@ == Map::<Seq<char>, VarView>::empty(),
            r.profiles@.dom() == Set::<Seq<char>>::empty(),
            r.registry_manager.unchanged_from(registry_manager),
            r.refresher == refresher,
    {
        let r = EnvironmentManager {
            registry_manager,
            refresher,
            cache: EnvVariables::new(),
            cache_loaded: false,
            profiles: EnvProfiles::new(),
            auto_refresh,
        };
        proof {
            assert(r.profiles@.dom() =~= Set::<Seq<char>>::empty());
        }
        r
    }

    /// Synchronous on-demand broadcast, available regardless of the
    /// auto-refresh setting.
    pub fn refresh_environment(&self) -> (r: EnvResult<()>)
        ensures
            r is Ok <==> self.refresher.broadcast_ok,
            r is Err ==> r matches Err(EnvError::RefreshFailed(_)),
    {
        self.refresher.refresh_environment()
    }

    /// Fire-and-forget broadcast: never blocks and never fails the caller.
    pub fn refresh_environment_async(&self) {
        self.refresher.refresh_environment_async();
    }

    /// Choose whether mutations broadcast inline or leave notification to
    /// an explicit call.
    pub fn set_auto_refresh(&mut self, auto_refresh: bool)
        requires
            old(self).wf(),
        ensures
            final(self).wf(),
            final(self).auto_refresh == auto_refresh,
            Self::same_store(*old(self), *final(self)),
            final(self).cache@ == old(self).cache@,
            final(self).cache_loaded == old(self).cache_loaded,
            final(self).profiles@ == old(self).profiles@,
            final(self).refresher == old(self).refresher,
    {
        self.auto_refresh = auto_refresh;
    }

    pub fn get_auto_refresh(&self) -> (r: bool)
        ensures
            r == self.auto_refresh,
    {
        self.auto_refresh
    }

    /// Advisory permission query for gating in the surrounding program:
    /// `User` is always mutable, `System` only from an elevated context.
    /// Defense in depth only: the scope guard on the mutation paths holds
    /// unconditionally, whatever this reports.
    pub fn check_admin_permission(&self, scope: EnvScope) -> (r: bool)
        ensures
            r == (scope == EnvScope::User || self.refresher.elevated),
    {
        match scope {
            EnvScope::User => true,
            EnvScope::System => self.refresher.is_user_admin(),
        }
    }

    /// Add a variable: the name is validated, `System` scope is rejected
    /// before any store contact, the store is written, the cache entry is
    /// inserted with fresh timestamps, and notification follows the
    /// auto-refresh setting.
    pub fn add_variable(&mut self, name: String, value: String, scope: EnvScope) -> (r: EnvResult<
        (),
    >)
        requires
            old(self).wf(),
        ensures
            final(self).wf(),
            final(self).refresher == old(self).refresher,
            final(self).auto_refresh == old(self).auto_refresh,
            final(self).profiles@ == old(self).profiles@,
            final(self).cache_loaded == old(self).cache_loaded,
            final(self).registry_manager.same_flags(old(self).registry_manager),
            final(self).registry_manager.ns(EnvScope::System) == old(self).registry_manager.ns(
                EnvScope::System,
            ),
            scope == EnvScope::System ==> (r matches Err(EnvError::PermissionDenied(_)))
                && Self::untouched(*old(self), *final(self)),
            scope == EnvScope::User && !valid_name(name@) ==> (r matches Err(
                EnvError::InvalidInput(_),
            )) && Self::untouched(*old(self), *final(self)),
            scope == EnvScope::User && valid_name(name@) && !old(self).registry_manager.available(
                EnvScope::User,
            ) ==> (r matches Err(EnvError::StoreUnavailable(_))) && Self::untouched(
                *old(self),
                *final(self),
            ),
            scope == EnvScope::User && valid_name(name@) && old(self).registry_manager.available(
                EnvScope::User,
            ) ==> final(self).registry_manager.ns(EnvScope::User) == old(self).registry_manager.ns(EnvScope::User).insert(
                name@,
                (SlotView { value: value@, ok: true }),
            ) && cache_upserted(old(self).cache@, final(self).cache@, name@, value@, scope) && (r
                is Ok <==> (!old(self).auto_refresh || old(self).refresher.broadcast_ok)) && (r
                is Err ==> r matches Err(EnvError::RefreshFailed(_))),
    {
        if let EnvScope::System = scope {
            return Err(
                EnvError::PermissionDenied(
                    "Cannot add system variables for safety reasons".to_owned(),
                ),
            );
        }
        if !check_name(name.as_str()) {
            return Err(
                EnvError::InvalidInput("variable name is empty or holds a forbidden character".to_owned()),
            );
        }
        match self.registry_manager.set_user_env_var(name.as_str(), value.as_str()) {
            Ok(()) => (),
            Err(e) => {
                return Err(e);
            },
        }
        let variable = crate::variable::EnvVariable::new(name, value, scope);
        self.cache.add(variable);
        proof {
            assert forall|k: Seq<char>| #[trigger] self.cache@.contains_key(k) implies self.registry_manager.visible(
                self.cache@[k].scope,
            ).contains_key(k) && self.registry_manager.visible(self.cache@[k].scope)[k]
                == self.cache@[k].value by {
                if k == name@ {
                    assert(self.registry_manager.visible(EnvScope::User) =~= old(self).registry_manager.visible(EnvScope::User).insert(name@, value@));
                } else {
                    assert(old(self).cache@.contains_key(k));
                    assert(self.registry_manager.visible(EnvScope::User) =~= old(self).registry_manager.visible(EnvScope::User).insert(name@, value@));
                    assert(self.registry_manager.visible(EnvScope::System) =~= old(self).registry_manager.visible(EnvScope::System));
                }
            }
        }
        if self.auto_refresh {
            match self.refresher.refresh_scope(scope) {
                Ok(()) => (),
                Err(e) => {
                    return Err(e);
                },
            }
        }
        Ok(())
    }

    /// Fully re-enumerate both namespaces and replace the cache. Merge
    /// rule: `User` entries are inserted first, then `System`, so on a name
    /// collision the `System` entry wins; this fixed order is part of the
    /// contract.
    pub fn load_all_variables(&mut self) -> (r: EnvResult<EnvVariables>)
        requires
            old(self).wf(),
        ensures
            final(self).wf(),
            Self::same_store(*old(self), *final(self)),
            final(self).refresher == old(self).refresher,
            final(self).auto_refresh == old(self).auto_refresh,
            final(self).profiles@ == old(self).profiles@,
            match r {
                Ok(vars) => old(self).registry_manager.available(EnvScope::User) && old(self).registry_manager.available(EnvScope::System) && final(self).cache_loaded
                    && cache_matches_merge(
                    final(self).cache@,
                    old(self).registry_manager.visible(EnvScope::User),
                    old(self).registry_manager.visible(EnvScope::System),
                ) && vars@ == final(self).cache@ && vars.wf() && vars.items() == final(self).cache.items(),
                Err(e) => (e matches EnvError::StoreUnavailable(_)) && !(old(self).registry_manager.available(EnvScope::User) && old(self).registry_manager.available(
                    EnvScope::System,
                )) && final(self).cache@ == old(self).cache@ && final(self).cache_loaded == old(self).cache_loaded,
            },
    {
        let user_entries = match self.registry_manager.get_user_env_vars() {
            Ok(e) => e,
            Err(e) => {
                return Err(e);
            },
        };
        let system_entries = match self.registry_manager.get_system_env_vars() {
            Ok(e) => e,
            Err(e) => {
                return Err(e);
            },
        };
        let ghost user_vis = self.registry_manager.visible(EnvScope::User);
        let ghost system_vis = self.registry_manager.visible(EnvScope::System);
        let mut variables = EnvVariables::new();
        let mut i: usize = 0;
        while i < user_entries.len()
            invariant
                variables.wf(),
                entries_report(user_entries@, user_vis),
                forall|k: Seq<char>|
                    #[trigger] variables@.contains_key(k) ==> user_vis.contains_key(k)
                        && variables@[k].name == k && variables@[k].scope == EnvScope::User
                        && variables@[k].value == user_vis[k],
                forall|a: int|
                    0 <= a < i ==> variables@.contains_key((#[trigger] user_entries@[a]).0@),
                i <= user_entries.len(),
            decreases user_entries.len() - i,
        {
            let p = &user_entries[i];
            let v = EnvVariable::new(p.0.clone(), p.1.clone(), EnvScope::User);
            variables.add(v);
            i += 1;
        }
        proof {
            assert forall|k: Seq<char>| #[trigger] user_vis.contains_key(k) implies variables@.contains_key(
                k,
            ) by {
                let a = choose|a: int|
                    0 <= a < user_entries@.len() && (#[trigger] user_entries@[a]).0@ == k;
                assert(variables@.contains_key(user_entries@[a].0@));
            }
        }
        let mut j: usize = 0;
        while j < system_entries.len()
            invariant
                variables.wf(),
                entries_report(system_entries@, system_vis),
                forall|k: Seq<char>|
                    #[trigger] variables@.contains_key(k) ==> variables@[k].name == k && ((
                    variables@[k].scope == EnvScope::System && system_vis.contains_key(k)
                        && variables@[k].value == system_vis[k]) || (variables@[k].scope
                        == EnvScope::User && user_vis.contains_key(k) && variables@[k].value
                        == user_vis[k])),
                forall|k: Seq<char>|
                    #[trigger] user_vis.contains_key(k) ==> variables@.contains_key(k),
                forall|a: int|
                    0 <= a < j ==> variables@.contains_key((#[trigger] system_entries@[a]).0@)
                        && variables@[system_entries@[a].0@].scope == EnvScope::System,
                j <= system_entries.len(),
            decreases system_entries.len() - j,
        {
            let p = &system_entries[j];
            let v = EnvVariable::new(p.0.clone(), p.1.clone(), EnvScope::System);
            variables.add(v);
            j += 1;
        }
        proof {
            assert forall|k: Seq<char>| #[trigger] system_vis.contains_key(k) implies variables@.contains_key(
                k,
            ) && variables@[k].scope == EnvScope::System by {
                let a = choose|a: int|
                    0 <= a < system_entries@.len() && (#[trigger] system_entries@[a]).0@ == k;
                assert(variables@.contains_key(system_entries@[a].0@));
            }
            assert(cache_matches_merge(variables@, user_vis, system_vis));
        }
        self.cache = variables.clone();
        self.cache_loaded = true;
        proof {
            assert forall|k: Seq<char>| #[trigger] self.cache@.contains_key(k) implies self.registry_manager.visible(
                self.cache@[k].scope,
            ).contains_key(k) && self.registry_manager.visible(self.cache@[k].scope)[k]
                == self.cache@[k].value by {
            }
        }
        Ok(variables)
    }

    /// All variables from the cache; a never-populated cache triggers a
    /// lazy full load first.
    pub fn get_all_variables(&mut self) -> (r: EnvResult<EnvVariables>)
        requires
            old(self).wf(),
        ensures
            final(self).wf(),
            Self::same_store(*old(self), *final(self)),
            final(self).refresher == old(self).refresher,
            final(self).auto_refresh == old(self).auto_refresh,
            final(self).profiles@ == old(self).profiles@,
            old(self).cache_loaded ==> r is Ok && final(self).cache@ == old(self).cache@ && final(self).cache_loaded,
            match r {
                Ok(vars) => final(self).cache_loaded && vars@ == final(self).cache@ && vars.wf()
                    && vars.items() == final(self).cache.items() && (!old(self).cache_loaded
                    ==> cache_matches_merge(
                    final(self).cache@,
                    old(self).registry_manager.visible(EnvScope::User),
                    old(self).registry_manager.visible(EnvScope::System),
                )),
                Err(e) => !old(self).cache_loaded && (e matches EnvError::StoreUnavailable(_))
                    && !(old(self).registry_manager.available(EnvScope::User) && old(self).registry_manager.available(EnvScope::System)) && final(self).cache@ == old(self).cache@ && final(self).cache_loaded == old(self).cache_loaded,
            },
    {
        if self.cache_loaded {
            Ok(self.cache.clone())
        } else {
            self.load_all_variables()
        }
    }

    /// The cached variables of one scope, in cache order.
    pub fn get_variables_by_scope(&mut self, scope: EnvScope) -> (r: EnvResult<Vec<EnvVariable>>)
        requires
            old(self).wf(),
        ensures
            final(self).wf(),
            Self::same_store(*old(self), *final(self)),
            final(self).refresher == old(self).refresher,
            final(self).auto_refresh == old(self).auto_refresh,
            final(self).profiles@ == old(self).profiles@,
            match r {
                Ok(vs) => final(self).cache_loaded && views_of(vs@) == filter_scope(
                    final(self).cache.items(),
                    scope,
                ),
                Err(e) => !old(self).cache_loaded && (e matches EnvError::StoreUnavailable(_))
                    && final(self).cache@ == old(self).cache@,
            },
    {
        match self.get_all_variables() {
            Ok(vars) => Ok(vars.filter_by_scope(scope)),
            Err(e) => Err(e),
        }
    }

    /// Case-insensitive search across name, value and description of the
    /// cached variables.
    pub fn search_variables(&mut self, query: &str) -> (r: EnvResult<Vec<EnvVariable>>)
        requires
            old(self).wf(),
        ensures
            final(self).wf(),
            Self::same_store(*old(self), *final(self)),
            final(self).refresher == old(self).refresher,
            final(self).auto_refresh == old(self).auto_refresh,
            final(self).profiles@ == old(self).profiles@,
            match r {
                Ok(vs) => final(self).cache_loaded && views_of(vs@) == filter_matches(
                    final(self).cache.items(),
                    lower_of(query@),
                ),
                Err(e) => !old(self).cache_loaded && (e matches EnvError::StoreUnavailable(_))
                    && final(self).cache@ == old(self).cache@,
            },
    {
        match self.get_all_variables() {
            Ok(vars) => Ok(vars.search(query)),
            Err(e) => Err(e),
        }
    }

    /// Update a variable's value: the scope is resolved from the cache, a
    /// `System` entry is refused without touching the store, a `User` entry
    /// is written through and patched in the cache.
    pub fn update_variable(&mut self, name: &str, new_value: String) -> (r: EnvResult<()>)
        requires
            old(self).wf(),
        ensures
            final(self).wf(),
            final(self).refresher == old(self).refresher,
            final(self).auto_refresh == old(self).auto_refresh,
            final(self).profiles@ == old(self).profiles@,
            final(self).cache_loaded == old(self).cache_loaded,
            final(self).registry_manager.same_flags(old(self).registry_manager),
            final(self).registry_manager.ns(EnvScope::System) == old(self).registry_manager.ns(
                EnvScope::System,
            ),
            !old(self).cache@.contains_key(name@) ==> (r matches Err(EnvError::NotFound(_)))
                && Self::untouched(*old(self), *final(self)),
            old(self).cache@.contains_key(name@) && old(self).cache@[name@].scope
                == EnvScope::System ==> (r matches Err(EnvError::PermissionDenied(_)))
                && Self::untouched(*old(self), *final(self)),
            old(self).cache@.contains_key(name@) && old(self).cache@[name@].scope == EnvScope::User
                && !old(self).registry_manager.available(EnvScope::User) ==> (r matches Err(
                EnvError::StoreUnavailable(_),
            )) && Self::untouched(*old(self), *final(self)),
            old(self).cache@.contains_key(name@) && old(self).cache@[name@].scope == EnvScope::User
                && old(self).registry_manager.available(EnvScope::User)
                ==> final(self).registry_manager.ns(EnvScope::User) == old(self).registry_manager.ns(
                EnvScope::User,
            ).insert(name@, (SlotView { value: new_value@, ok: true })) && cache_upserted(
                old(self).cache@,
                final(self).cache@,
                name@,
                new_value@,
                EnvScope::User,
            ) && final(self).cache@[name@].created_at == old(self).cache@[name@].created_at
                && final(self).cache@[name@].description == old(self).cache@[name@].description && (
            r is Ok <==> (!old(self).auto_refresh || old(self).refresher.broadcast_ok)) && (r is Err
                ==> r matches Err(EnvError::RefreshFailed(_))),
    {
        let scope_opt: Option<EnvScope> = match self.cache.get(name) {
            Some(v) => Some(v.scope),
            None => None,
        };
        match scope_opt {
            None => Err(EnvError::NotFound(name.to_owned())),
            Some(EnvScope::System) => Err(
                EnvError::PermissionDenied(
                    "Cannot modify system variables for safety reasons".to_owned(),
                ),
            ),
            Some(EnvScope::User) => {
                match self.registry_manager.set_user_env_var(name, new_value.as_str()) {
                    Ok(()) => (),
                    Err(e) => {
                        return Err(e);
                    },
                }
                let mut updated = self.cache.get(name).unwrap().clone();
                updated.update_value(new_value);
                self.cache.add(updated);
                proof {
                    assert forall|k: Seq<char>| #[trigger] self.cache@.contains_key(k) implies self.registry_manager.visible(
                        self.cache@[k].scope,
                    ).contains_key(k) && self.registry_manager.visible(self.cache@[k].scope)[k]
                        == self.cache@[k].value by {
                        assert(self.registry_manager.visible(EnvScope::User) =~= old(self).registry_manager.visible(EnvScope::User).insert(name@, new_value@));
                        assert(self.registry_manager.visible(EnvScope::System) =~= old(self).registry_manager.visible(EnvScope::System));
                        if k != name@ {
                            assert(old(self).cache@.contains_key(k));
                        }
                    }
                }
                if self.auto_refresh {
                    match self.refresher.refresh_scope(EnvScope::User) {
                        Ok(()) => (),
                        Err(e) => {
                            return Err(e);
                        },
                    }
                }
                Ok(())
            },
        }
    }

    /// Delete a variable: the same scope-resolution and guard pattern as
    /// update; the entry leaves the store first and the cache second.
    pub fn delete_variable(&mut self, name: &str) -> (r: EnvResult<()>)
        requires
            old(self).wf(),
        ensures
            final(self).wf(),
            final(self).refresher == old(self).refresher,
            final(self).auto_refresh == old(self).auto_refresh,
            final(self).profiles@ == old(self).profiles@,
            final(self).cache_loaded == old(self).cache_loaded,
            final(self).registry_manager.same_flags(old(self).registry_manager),
            final(self).registry_manager.ns(EnvScope::System) == old(self).registry_manager.ns(
                EnvScope::System,
            ),
            !old(self).cache@.contains_key(name@) ==> (r matches Err(EnvError::NotFound(_)))
                && Self::untouched(*old(self), *final(self)),
            old(self).cache@.contains_key(name@) && old(self).cache@[name@].scope
                == EnvScope::System ==> (r matches Err(EnvError::PermissionDenied(_)))
                && Self::untouched(*old(self), *final(self)),
            old(self).cache@.contains_key(name@) && old(self).cache@[name@].scope == EnvScope::User
                && !old(self).registry_manager.available(EnvScope::User) ==> (r matches Err(
                EnvError::StoreUnavailable(_),
            )) && Self::untouched(*old(self), *final(self)),
            old(self).cache@.contains_key(name@) && old(self).cache@[name@].scope == EnvScope::User
                && old(self).registry_manager.available(EnvScope::User)
                ==> final(self).registry_manager.ns(EnvScope::User) == old(self).registry_manager.ns(
                EnvScope::User,
            ).remove(name@) && final(self).cache@ == old(self).cache@.remove(name@) && (r is Ok
                <==> (!old(self).auto_refresh || old(self).refresher.broadcast_ok)) && (r is Err
                ==> r matches Err(EnvError::RefreshFailed(_))),
    {
        let scope_opt: Option<EnvScope> = match self.cache.get(name) {
            Some(v) => Some(v.scope),
            None => None,
        };
        match scope_opt {
            None => Err(EnvError::NotFound(name.to_owned())),
            Some(EnvScope::System) => Err(
                EnvError::PermissionDenied(
                    "Cannot delete system variables for safety reasons".to_owned(),
                ),
            ),
            Some(EnvScope::User) => {
                proof {
                    assert(old(self).registry_manager.visible(EnvScope::User).contains_key(name@));
                }
                match self.registry_manager.delete_user_env_var(name) {
                    Ok(()) => (),
                    Err(e) => {
                        return Err(e);
                    },
                }
                let _ = self.cache.remove(name);
                proof {
                    assert forall|k: Seq<char>| #[trigger] self.cache@.contains_key(k) implies self.registry_manager.visible(
                        self.cache@[k].scope,
                    ).contains_key(k) && self.registry_manager.visible(self.cache@[k].scope)[k]
                        == self.cache@[k].value by {
                        assert(self.registry_manager.visible(EnvScope::User) =~= old(self).registry_manager.visible(EnvScope::User).remove(name@));
                        assert(self.registry_manager.visible(EnvScope::System) =~= old(self).registry_manager.visible(EnvScope::System));
                        assert(old(self).cache@.contains_key(k));
                    }
                }
                if self.auto_refresh {
                    match self.refresher.refresh_scope(EnvScope::User) {
                        Ok(()) => (),
                        Err(e) => {
                            return Err(e);
                        },
                    }
                }
                Ok(())
            },
        }
    }

    /// Replace the profile registry with one loaded by the surrounding
    /// program; the registry is one unit, never a partial load.
    pub fn load_profiles(&mut self, profiles: EnvProfiles)
        requires
            old(self).wf(),
            profiles.wf(),
        ensures
            final(self).wf(),
            final(self).profiles@ == profiles@,
            Self::same_store(*old(self), *final(self)),
            final(self).cache@ == old(self).cache@,
            final(self).cache_loaded == old(self).cache_loaded,
            final(self).refresher == old(self).refresher,
            final(self).auto_refresh == old(self).auto_refresh,
    {
        self.profiles = profiles;
    }

    /// A copy of the profile registry, for display or for saving as one
    /// unit.
    pub fn get_profiles(&self) -> (r: EnvResult<EnvProfiles>)
        requires
            self.wf(),
        ensures
            r is Ok,
            r matches Ok(p) ==> p@ == self.profiles@ && p.wf(),
    {
        Ok(self.profiles.clone())
    }

    /// Flip a profile's enabled flag; no store I/O of any kind.
    pub fn toggle_profile(&mut self, profile_name: &str, enabled: bool) -> (r: EnvResult<()>)
        requires
            old(self).wf(),
        ensures
            final(self).wf(),
            Self::same_store(*old(self), *final(self)),
            final(self).cache@ == old(self).cache@,
            final(self).cache_loaded == old(self).cache_loaded,
            final(self).refresher == old(self).refresher,
            final(self).auto_refresh == old(self).auto_refresh,
            !old(self).profiles@.contains_key(profile_name@) ==> (r matches Err(
                EnvError::ProfileNotFound(_),
            )) && final(self).profiles@ == old(self).profiles@,
            old(self).profiles@.contains_key(profile_name@) ==> r is Ok && final(self).profiles@.contains_key(profile_name@) && final(self).profiles@[profile_name@] == (
            ProfileView {
                enabled,
                updated_at: final(self).profiles@[profile_name@].updated_at,
                ..old(self).profiles@[profile_name@]
            }) && (forall|k: Seq<char>|
                k != profile_name@ ==> ((#[trigger] final(self).profiles@.contains_key(k)) <==> old(self).profiles@.contains_key(k)) && (old(self).profiles@.contains_key(k) ==> final(self).profiles@[k] == old(self).profiles@[k])),
    {
        let updated = match self.profiles.get(profile_name) {
            Some(p) => {
                let mut c = p.clone();
                c.set_enabled(enabled);
                c
            },
            None => {
                return Err(EnvError::ProfileNotFound(profile_name.to_owned()));
            },
        };
        self.profiles.add(updated);
        Ok(())
    }

    /// Apply a profile: resolve it, reject a disabled one, check elevation
    /// once up front for `System` scope and fail before any write without
    /// it, then route every assignment through the guarded store-write path
    /// and patch the cache. Not transactional: a mid-iteration store
    /// failure leaves prior assignments applied.
    pub fn apply_profile(&mut self, profile_name: &str) -> (r: EnvResult<()>)
        requires
            old(self).wf(),
        ensures
            final(self).wf(),
            final(self).profiles@ == old(self).profiles@,
            final(self).refresher == old(self).refresher,
            final(self).auto_refresh == old(self).auto_refresh,
            final(self).cache_loaded == old(self).cache_loaded,
            !old(self).profiles@.contains_key(profile_name@) ==> (r matches Err(
                EnvError::ProfileNotFound(_),
            )) && Self::untouched(*old(self), *final(self)),
            old(self).profiles@.contains_key(profile_name@)
                && !old(self).profiles@[profile_name@].enabled ==> (r matches Err(
                EnvError::ConfigurationError(_),
            )) && Self::untouched(*old(self), *final(self)),
            old(self).profiles@.contains_key(profile_name@)
                && old(self).profiles@[profile_name@].enabled
                && old(self).profiles@[profile_name@].scope == EnvScope::System
                && !old(self).refresher.elevated ==> (r matches Err(EnvError::PermissionDenied(_)))
                && Self::untouched(*old(self), *final(self)),
            old(self).profiles@.contains_key(profile_name@)
                && old(self).profiles@[profile_name@].enabled && (
            old(self).profiles@[profile_name@].scope == EnvScope::User
                || old(self).refresher.elevated) ==> applied_within(
                *old(self),
                *final(self),
                old(self).profiles@[profile_name@].vars,
                old(self).profiles@[profile_name@].scope,
            ),
            old(self).profiles@.contains_key(profile_name@)
                && old(self).profiles@[profile_name@].enabled && (
            old(self).profiles@[profile_name@].scope == EnvScope::User
                || old(self).refresher.elevated) && (r is Ok || r matches Err(
                EnvError::RefreshFailed(_),
            )) ==> all_applied(
                *final(self),
                old(self).profiles@[profile_name@].vars,
                old(self).profiles@[profile_name@].scope,
            ),
            old(self).profiles@.contains_key(profile_name@)
                && old(self).profiles@[profile_name@].enabled && (
            old(self).profiles@[profile_name@].scope == EnvScope::User
                || old(self).refresher.elevated) && r is Err ==> (r matches Err(
                EnvError::StoreUnavailable(_),
            ) || r matches Err(EnvError::PermissionDenied(_)) || r matches Err(
                EnvError::RefreshFailed(_),
            )),
            old(self).profiles@.contains_key(profile_name@)
                && old(self).profiles@[profile_name@].enabled && (
            old(self).profiles@[profile_name@].scope == EnvScope::User
                || old(self).refresher.elevated) && old(self).registry_manager.available(
                old(self).profiles@[profile_name@].scope,
            ) && old(self).registry_manager.writable(old(self).profiles@[profile_name@].scope)
                ==> (r is Ok <==> (!old(self).auto_refresh || old(self).refresher.broadcast_ok)),
    {
        let prof = match self.profiles.get(profile_name) {
            Some(p) => {
                if !p.enabled {
                    return Err(EnvError::ConfigurationError("profile is disabled".to_owned()));
                }
                p.clone()
            },
            None => {
                return Err(EnvError::ProfileNotFound(profile_name.to_owned()));
            },
        };
        let scope = prof.scope;
        match scope {
            EnvScope::System => {
                if !self.refresher.is_user_admin() {
                    return Err(
                        EnvError::PermissionDenied(
                            "Admin privileges required for system profiles".to_owned(),
                        ),
                    );
                }
            },
            EnvScope::User => (),
        }
        let ghost pvars = prof@.vars;
        let mut i: usize = 0;
        while i < prof.variables.pairs.len()
            invariant
                prof.wf(),
                scope == prof.scope,
                pvars == prof@.vars,
                i <= prof.variables.pairs.len(),
                old(self).profiles@.contains_key(profile_name@),
                old(self).profiles@[profile_name@].enabled,
                prof@ == old(self).profiles@[profile_name@],
                scope == EnvScope::User || old(self).refresher.elevated,
                self.registry_manager.wf(),
                self.cache.wf(),
                self.profiles.wf(),
                self.cache_consistent(),
                self.profiles@ == old(self).profiles@,
                self.refresher == old(self).refresher,
                self.auto_refresh == old(self).auto_refresh,
                self.cache_loaded == old(self).cache_loaded,
                self.registry_manager.same_flags(old(self).registry_manager),
                self.registry_manager.ns(other_scope(scope)) == old(self).registry_manager.ns(
                    other_scope(scope),
                ),
                self.registry_manager.available(scope) == old(self).registry_manager.available(
                    scope,
                ),
                self.registry_manager.writable(scope) == old(self).registry_manager.writable(scope),
                forall|k: Seq<char>|
                    !pvars.contains_key(k) ==> ns_same_at(
                        old(self).registry_manager.ns(scope),
                        self.registry_manager.ns(scope),
                        k,
                    ) && (#[trigger] cache_same_at(old(self).cache@, self.cache@, k)),
                forall|j: int|
                    0 <= j < i ==> applied_at(
                        *self,
                        scope,
                        (#[trigger] prof.variables.kv()[j]).0,
                        prof.variables.kv()[j].1@,
                    ),
                forall|k: Seq<char>|
                    #[trigger] pvars.contains_key(k) ==> applied_at(*self, scope, k, pvars[k]) || (
                    ns_same_at(
                        old(self).registry_manager.ns(scope),
                        self.registry_manager.ns(scope),
                        k,
                    ) && cache_same_at(old(self).cache@, self.cache@, k)),
            decreases prof.variables.pairs.len() - i,
        {
            let p = &prof.variables.pairs[i];
            let ghost k0 = prof.variables.kv()[i as int].0;
            let ghost val0 = prof.variables.kv()[i as int].1@;
            let ghost ns0 = self.registry_manager.ns(scope);
            let ghost cache0 = self.cache@;
            let ghost self0 = *self;
            proof {
                lemma_map_of_index(prof.variables.kv(), i as int);
                assert(pvars.contains_key(k0) && pvars[k0] == val0);
            }
            match self.registry_manager.write(scope, p.0.as_str(), p.1.as_str()) {
                Ok(()) => (),
                Err(e) => {
                    proof {
                        assert forall|k: Seq<char>| !pvars.contains_key(k) implies ns_same_at(
                            old(self).registry_manager.ns(scope),
                            self.registry_manager.ns(scope),
                            k,
                        ) && (cache_same_at(old(self).cache@, self.cache@, k)) by {
                            assert(cache_same_at(old(self).cache@, cache0, k));
                            assert(ns_same_at(old(self).registry_manager.ns(scope), ns0, k));
                        }
                        assert forall|k: Seq<char>| #[trigger] pvars.contains_key(k) implies applied_at(
                            *self,
                            scope,
                            k,
                            pvars[k],
                        ) || (ns_same_at(
                            old(self).registry_manager.ns(scope),
                            self.registry_manager.ns(scope),
                            k,
                        ) && cache_same_at(old(self).cache@, self.cache@, k)) by {
                            if applied_at(self0, scope, k, pvars[k]) {
                            } else {
                                assert(cache_same_at(old(self).cache@, cache0, k));
                                assert(ns_same_at(old(self).registry_manager.ns(scope), ns0, k));
                            }
                        }
                        assert(applied_within(*old(self), *self, pvars, scope));
                    }
                    return Err(e);
                },
            }
            let v = EnvVariable::new(p.0.clone(), p.1.clone(), scope);
            self.cache.add(v);
            proof {
                assert(self.registry_manager.ns(scope) == ns0.insert(
                    k0,
                    (SlotView { value: val0, ok: true }),
                ));
                assert(self.cache@.contains_key(k0) && self.cache@[k0].name == k0
                    && self.cache@[k0].scope == scope && self.cache@[k0].value == val0);
                assert forall|k: Seq<char>| !pvars.contains_key(k) implies ns_same_at(
                    old(self).registry_manager.ns(scope),
                    self.registry_manager.ns(scope),
                    k,
                ) && (cache_same_at(old(self).cache@, self.cache@, k)) by {
                    assert(cache_same_at(old(self).cache@, cache0, k));
                    assert(ns_same_at(old(self).registry_manager.ns(scope), ns0, k));
                    assert(k != k0);
                }
                assert forall|j: int| 0 <= j < i + 1 implies applied_at(
                    *self,
                    scope,
                    (#[trigger] prof.variables.kv()[j]).0,
                    prof.variables.kv()[j].1@,
                ) by {
                    if j < i {
                        assert(applied_at(
                            self0,
                            scope,
                            prof.variables.kv()[j].0,
                            prof.variables.kv()[j].1@,
                        ));
                        assert(prof.variables.kv()[j].0 != k0);
                    }
                }
                assert forall|k: Seq<char>| #[trigger] pvars.contains_key(k) implies applied_at(
                    *self,
                    scope,
                    k,
                    pvars[k],
                ) || (ns_same_at(
                    old(self).registry_manager.ns(scope),
                    self.registry_manager.ns(scope),
                    k,
                ) && cache_same_at(old(self).cache@, self.cache@, k)) by {
                    if k != k0 {
                        if applied_at(self0, scope, k, pvars[k]) {
                        } else {
                            assert(cache_same_at(old(self).cache@, cache0, k));
                            assert(ns_same_at(old(self).registry_manager.ns(scope), ns0, k));
                        }
                    }
                }
                assert forall|k: Seq<char>| #[trigger] self.cache@.contains_key(k) implies self.registry_manager.visible(
                    self.cache@[k].scope,
                ).contains_key(k) && self.registry_manager.visible(self.cache@[k].scope)[k]
                    == self.cache@[k].value by {
                    assert(self.registry_manager.visible(scope) =~= self0.registry_manager.visible(
                        scope,
                    ).insert(k0, val0));
                    assert(self.registry_manager.visible(other_scope(scope))
                        =~= self0.registry_manager.visible(other_scope(scope)));
                    if k != k0 {
                        assert(cache0.contains_key(k));
                        assert(self.cache@[k].scope == scope || self.cache@[k].scope == other_scope(
                            scope,
                        ));
                    }
                }
            }
            i += 1;
        }
        proof {
            assert forall|k: Seq<char>| !pvars.contains_key(k) implies ns_same_at(
                old(self).registry_manager.ns(scope),
                self.registry_manager.ns(scope),
                k,
            ) && (cache_same_at(old(self).cache@, self.cache@, k)) by {
                assert(cache_same_at(old(self).cache@, self.cache@, k));
            }
            assert forall|k: Seq<char>| #[trigger] pvars.contains_key(k) implies applied_at(
                *self,
                scope,
                k,
                pvars[k],
            ) || (ns_same_at(
                old(self).registry_manager.ns(scope),
                self.registry_manager.ns(scope),
                k,
            ) && cache_same_at(old(self).cache@, self.cache@, k)) by {
            }
            assert(applied_within(*old(self), *self, pvars, scope));
            lemma_map_of_dom(prof.variables.kv());
            assert forall|k: Seq<char>| #[trigger] pvars.contains_key(k) implies applied_at(
                *self,
                scope,
                k,
                pvars[k],
            ) by {
                assert(prof.variables@.contains_key(k));
                let j = choose|j: int|
                    0 <= j < prof.variables.kv().len() && prof.variables.kv()[j].0 == k;
                lemma_map_of_index(prof.variables.kv(), j);
            }
        }
        if self.auto_refresh {
            match self.refresher.refresh_scope(scope) {
                Ok(()) => (),
                Err(e) => {
                    return Err(e);
                },
            }
        }
        Ok(())
    }
}

} // verus!

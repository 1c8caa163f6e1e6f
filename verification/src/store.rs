//! The variable store: two name-keyed namespaces, one per scope, with the
//! four primitives enumerate, read, write and delete.
//!
//! The store is an explicitly owned, injectable state handle. An entry
//! carries its decoded text together with a decodability mark: enumeration
//! skips an entry that could not be decoded and carries on, it never fails
//! on one. Availability and write permission of the `System` namespace are
//! part of the state, so every failure path of the primitives is a stated
//! outcome.

use vstd::prelude::*;

use crate::assoc::lemma_map_of_dom;
use crate::assoc::lemma_map_of_index;
use crate::assoc::Assoc;
use crate::error::EnvError;
use crate::error::EnvResult;
use crate::variable::EnvScope;

verus! {

/// One raw store entry: its decoded text and whether decoding succeeded.
#[derive(Debug)]
pub struct StoreSlot {
    pub value: String,
    pub ok: bool,
}

/// Mathematical image of a store entry.
pub ghost struct SlotView {
    pub value: Seq<char>,
    pub ok: bool,
}

impl View for StoreSlot {
    type V = SlotView;

    open spec fn view(&self) -> SlotView {
        SlotView { value: self.value@, ok: self.ok }
    }
}

/// The entries an enumeration reports: the decodable ones, by name.
pub open spec fn visible_of(m: Map<Seq<char>, SlotView>) -> Map<Seq<char>, Seq<char>> {
    Map::new(|k: Seq<char>| m.contains_key(k) && m[k].ok, |k: Seq<char>| m[k].value)
}

/// The two-namespace store.
#[derive(Debug)]
pub struct RegistryManager {
    pub user_ns: Assoc<StoreSlot>,
    pub system_ns: Assoc<StoreSlot>,
    pub user_available: bool,
    pub system_available: bool,
    pub system_writable: bool,
}

impl RegistryManager {
    pub open spec fn wf(self) -> bool {
        self.user_ns.wf() && self.system_ns.wf()
    }

    /// Raw entries of the namespace for `scope`.
    pub open spec fn ns(self, scope: EnvScope) -> Map<Seq<char>, SlotView> {
        match scope {
            EnvScope::User => self.user_ns@.map_values(|s: StoreSlot| s@),
            EnvScope::System => self.system_ns@.map_values(|s: StoreSlot| s@),
        }
    }

    /// What enumerating `scope` reports.
    pub open spec fn visible(self, scope: EnvScope) -> Map<Seq<char>, Seq<char>> {
        visible_of(self.ns(scope))
    }

    /// The namespace for `scope` can be opened.
    pub open spec fn available(self, scope: EnvScope) -> bool {
        match scope {
            EnvScope::User => self.user_available,
            EnvScope::System => self.system_available,
        }
    }

    /// The caller's rights suffice to mutate `scope`.
    pub open spec fn writable(self, scope: EnvScope) -> bool {
        match scope {
            EnvScope::User => true,
            EnvScope::System => self.system_writable,
        }
    }

    /// Same availability and permission flags.
    pub open spec fn same_flags(self, o: Self) -> bool {
        &&& self.user_available == o.user_available
        &&& self.system_available == o.system_available
        &&& self.system_writable == o.system_writable
    }

    /// Same contents and flags: nothing about the store can be observed to
    /// have changed.
    pub open spec fn unchanged_from(self, o: Self) -> bool {
        &&& self.ns(EnvScope::User) == o.ns(EnvScope::User)
        &&& self.ns(EnvScope::System) == o.ns(EnvScope::System)
        &&& self.same_flags(o)
    }

    /// A fresh store: both namespaces empty and readable, the `System`
    /// namespace not writable.
    pub fn new() -> (r: Self)
        ensures
            r.wf(),
            r.ns(EnvScope::User) == Map::<Seq<char>, SlotView>::empty(),
            r.ns(EnvScope::System) == Map::<Seq<char>, SlotView>::empty(),
            r.user_available,
            r.system_available,
            !r.system_writable,
    {
        let r = RegistryManager {
            user_ns: Assoc::new(),
            system_ns: Assoc::new(),
            user_available: true,
            system_available: true,
            system_writable: false,
        };
        proof {
            assert(r.ns(EnvScope::User) =~= Map::<Seq<char>, SlotView>::empty());
            assert(r.ns(EnvScope::System) =~= Map::<Seq<char>, SlotView>::empty());
        }
        r
    }

    /// A fresh store with chosen availability and permission flags.
    pub fn with_flags(user_available: bool, system_available: bool, system_writable: bool) -> (r:
        Self)
        ensures
            r.wf(),
            r.ns(EnvScope::User) == Map::<Seq<char>, SlotView>::empty(),
            r.ns(EnvScope::System) == Map::<Seq<char>, SlotView>::empty(),
            r.user_available == user_available,
            r.system_available == system_available,
            r.system_writable == system_writable,
    {
        let r = RegistryManager {
            user_ns: Assoc::new(),
            system_ns: Assoc::new(),
            user_available,
            system_available,
            system_writable,
        };
        proof {
            assert(r.ns(EnvScope::User) =~= Map::<Seq<char>, SlotView>::empty());
            assert(r.ns(EnvScope::System) =~= Map::<Seq<char>, SlotView>::empty());
        }
        r
    }

    /// Put an entry into a namespace directly, standing for store state that
    /// existed before this process: no availability or permission check.
    pub fn seed(&mut self, scope: EnvScope, name: String, value: String)
        requires
            old(self).wf(),
        ensures
            final(self).wf(),
            final(self).ns(scope) == old(self).ns(scope).insert(
                name@,
                (SlotView { value: value@, ok: true }),
            ),
            final(self).ns(other_scope(scope)) == old(self).ns(other_scope(scope)),
            final(self).same_flags(*old(self)),
    {
        match scope {
            EnvScope::User => {
                self.user_ns.insert(name, StoreSlot { value, ok: true });
                proof {
                    assert(self.ns(EnvScope::User) =~= old(self).ns(EnvScope::User).insert(
                        name@,
                        (SlotView { value: value@, ok: true }),
                    ));
                }
            },
            EnvScope::System => {
                self.system_ns.insert(name, StoreSlot { value, ok: true });
                proof {
                    assert(self.ns(EnvScope::System) =~= old(self).ns(EnvScope::System).insert(
                        name@,
                        (SlotView { value: value@, ok: true }),
                    ));
                }
            },
        }
    }

    /// Put an undecodable entry into a namespace, standing for a malformed
    /// value found in the outside store.
    pub fn seed_undecodable(&mut self, scope: EnvScope, name: String)
        requires
            old(self).wf(),
        ensures
            final(self).wf(),
            final(self).ns(scope).dom() == old(self).ns(scope).dom().insert(name@),
            final(self).ns(scope).contains_key(name@) && !final(self).ns(scope)[name@].ok,
            forall|k: Seq<char>|
                #[trigger] old(self).ns(scope).contains_key(k) && k != name@ ==> final(self).ns(
                    scope,
                )[k] == old(self).ns(scope)[k],
            final(self).ns(other_scope(scope)) == old(self).ns(other_scope(scope)),
            final(self).same_flags(*old(self)),
    {
        match scope {
            EnvScope::User => {
                self.user_ns.insert(name, StoreSlot { value: String::new(), ok: false });
                proof {
                    assert(self.ns(EnvScope::User).dom() =~= old(self).ns(
                        EnvScope::User,
                    ).dom().insert(name@));
                }
            },
            EnvScope::System => {
                self.system_ns.insert(name, StoreSlot { value: String::new(), ok: false });
                proof {
                    assert(self.ns(EnvScope::System).dom() =~= old(self).ns(
                        EnvScope::System,
                    ).dom().insert(name@));
                }
            },
        }
    }

    /// Mark a namespace as openable or not.
    pub fn set_available(&mut self, scope: EnvScope, available: bool)
        requires
            old(self).wf(),
        ensures
            final(self).wf(),
            final(self).ns(EnvScope::User) == old(self).ns(EnvScope::User),
            final(self).ns(EnvScope::System) == old(self).ns(EnvScope::System),
            final(self).available(scope) == available,
            final(self).available(other_scope(scope)) == old(self).available(other_scope(scope)),
            final(self).system_writable == old(self).system_writable,
    {
        match scope {
            EnvScope::User => {
                self.user_available = available;
            },
            EnvScope::System => {
                self.system_available = available;
            },
        }
    }

    /// Grant or revoke the right to mutate the `System` namespace.
    pub fn set_system_writable(&mut self, writable: bool)
        requires
            old(self).wf(),
        ensures
            final(self).wf(),
            final(self).ns(EnvScope::User) == old(self).ns(EnvScope::User),
            final(self).ns(EnvScope::System) == old(self).ns(EnvScope::System),
            final(self).user_available == old(self).user_available,
            final(self).system_available == old(self).system_available,
            final(self).system_writable == writable,
    {
        self.system_writable = writable;
    }

    fn scope_available(&self, scope: EnvScope) -> (r: bool)
        ensures
            r == self.available(scope),
    {
        match scope {
            EnvScope::User => self.user_available,
            EnvScope::System => self.system_available,
        }
    }

    fn scope_writable(&self, scope: EnvScope) -> (r: bool)
        ensures
            r == self.writable(scope),
    {
        match scope {
            EnvScope::User => true,
            EnvScope::System => self.system_writable,
        }
    }

    /// Enumerate the decodable entries of `scope`; an undecodable entry is
    /// skipped, never fatal to the enumeration.
    pub fn enumerate(&self, scope: EnvScope) -> (r: EnvResult<Vec<(String, String)>>)
        requires
            self.wf(),
        ensures
            match r {
                Ok(entries) => self.available(scope) && entries_report(
                    entries@,
                    self.visible(scope),
                ),
                Err(e) => !self.available(scope) && (e matches EnvError::StoreUnavailable(_)),
            },
    {
        if !self.scope_available(scope) {
            return Err(EnvError::StoreUnavailable("cannot open namespace for reading".to_owned()));
        }
        match scope {
            EnvScope::User => Ok(enumerate_ns(&self.user_ns)),
            EnvScope::System => Ok(enumerate_ns(&self.system_ns)),
        }
    }

    pub fn get_user_env_vars(&self) -> (r: EnvResult<Vec<(String, String)>>)
        requires
            self.wf(),
        ensures
            match r {
                Ok(entries) => self.available(EnvScope::User) && entries_report(
                    entries@,
                    self.visible(EnvScope::User),
                ),
                Err(e) => !self.available(EnvScope::User) && (e
                    matches EnvError::StoreUnavailable(_)),
            },
    {
        self.enumerate(EnvScope::User)
    }

    pub fn get_system_env_vars(&self) -> (r: EnvResult<Vec<(String, String)>>)
        requires
            self.wf(),
        ensures
            match r {
                Ok(entries) => self.available(EnvScope::System) && entries_report(
                    entries@,
                    self.visible(EnvScope::System),
                ),
                Err(e) => !self.available(EnvScope::System) && (e
                    matches EnvError::StoreUnavailable(_)),
            },
    {
        self.enumerate(EnvScope::System)
    }

    /// Write `name = value` into the namespace for `scope`. Idempotent:
    /// writing the same value again succeeds and leaves the same state.
    pub fn write(&mut self, scope: EnvScope, name: &str, value: &str) -> (r: EnvResult<()>)
        requires
            old(self).wf(),
        ensures
            final(self).wf(),
            final(self).same_flags(*old(self)),
            !old(self).available(scope) ==> (r matches Err(EnvError::StoreUnavailable(_)))
                && final(self).unchanged_from(*old(self)),
            old(self).available(scope) && !old(self).writable(scope) ==> (r matches Err(
                EnvError::PermissionDenied(_),
            )) && final(self).unchanged_from(*old(self)),
            old(self).available(scope) && old(self).writable(scope) ==> r is Ok && final(self).ns(
                scope,
            ) == old(self).ns(scope).insert(name@, (SlotView { value: value@, ok: true }))
                && final(self).ns(other_scope(scope)) == old(self).ns(other_scope(scope)),
    {
        if !self.scope_available(scope) {
            return Err(EnvError::StoreUnavailable("cannot open namespace for writing".to_owned()));
        }
        if !self.scope_writable(scope) {
            return Err(
                EnvError::PermissionDenied("insufficient rights to write namespace".to_owned()),
            );
        }
        match scope {
            EnvScope::User => {
                self.user_ns.insert(name.to_owned(), StoreSlot { value: value.to_owned(), ok: true });
                proof {
                    assert(self.ns(EnvScope::User) =~= old(self).ns(EnvScope::User).insert(
                        name@,
                        (SlotView { value: value@, ok: true }),
                    ));
                }
            },
            EnvScope::System => {
                self.system_ns.insert(
                    name.to_owned(),
                    StoreSlot { value: value.to_owned(), ok: true },
                );
                proof {
                    assert(self.ns(EnvScope::System) =~= old(self).ns(EnvScope::System).insert(
                        name@,
                        (SlotView { value: value@, ok: true }),
                    ));
                }
            },
        }
        Ok(())
    }

    pub fn set_user_env_var(&mut self, name: &str, value: &str) -> (r: EnvResult<()>)
        requires
            old(self).wf(),
        ensures
            final(self).wf(),
            final(self).same_flags(*old(self)),
            !old(self).available(EnvScope::User) ==> (r matches Err(EnvError::StoreUnavailable(_)))
                && final(self).unchanged_from(*old(self)),
            old(self).available(EnvScope::User) ==> r is Ok && final(self).ns(EnvScope::User)
                == old(self).ns(EnvScope::User).insert(name@, (SlotView { value: value@, ok: true }))
                && final(self).ns(EnvScope::System) == old(self).ns(EnvScope::System),
    {
        self.write(EnvScope::User, name, value)
    }

    pub fn set_system_env_var(&mut self, name: &str, value: &str) -> (r: EnvResult<()>)
        requires
            old(self).wf(),
        ensures
            final(self).wf(),
            final(self).same_flags(*old(self)),
            !old(self).available(EnvScope::System) ==> (r matches Err(
                EnvError::StoreUnavailable(_),
            )) && final(self).unchanged_from(*old(self)),
            old(self).available(EnvScope::System) && !old(self).system_writable ==> (r matches Err(
                EnvError::PermissionDenied(_),
            )) && final(self).unchanged_from(*old(self)),
            old(self).available(EnvScope::System) && old(self).system_writable ==> r is Ok
                && final(self).ns(EnvScope::System) == old(self).ns(EnvScope::System).insert(
                name@,
                (SlotView { value: value@, ok: true }),
            ) && final(self).ns(EnvScope::User) == old(self).ns(EnvScope::User),
    {
        self.write(EnvScope::System, name, value)
    }

    /// Delete `name` from the namespace for `scope`; deleting an absent
    /// name fails with `NotFound`.
    pub fn delete(&mut self, scope: EnvScope, name: &str) -> (r: EnvResult<()>)
        requires
            old(self).wf(),
        ensures
            final(self).wf(),
            final(self).same_flags(*old(self)),
            !old(self).available(scope) ==> (r matches Err(EnvError::StoreUnavailable(_)))
                && final(self).unchanged_from(*old(self)),
            old(self).available(scope) && !old(self).writable(scope) ==> (r matches Err(
                EnvError::PermissionDenied(_),
            )) && final(self).unchanged_from(*old(self)),
            old(self).available(scope) && old(self).writable(scope) && !old(self).ns(
                scope,
            ).contains_key(name@) ==> (r matches Err(EnvError::NotFound(_)))
                && final(self).unchanged_from(*old(self)),
            old(self).available(scope) && old(self).writable(scope) && old(self).ns(
                scope,
            ).contains_key(name@) ==> r is Ok && final(self).ns(scope) == old(self).ns(
                scope,
            ).remove(name@) && final(self).ns(other_scope(scope)) == old(self).ns(
                other_scope(scope),
            ),
    {
        if !self.scope_available(scope) {
            return Err(EnvError::StoreUnavailable("cannot open namespace for writing".to_owned()));
        }
        if !self.scope_writable(scope) {
            return Err(
                EnvError::PermissionDenied("insufficient rights to write namespace".to_owned()),
            );
        }
        let key = name.to_owned();
        match scope {
            EnvScope::User => {
                match self.user_ns.remove(&key) {
                    Some(_) => {
                        proof {
                            assert(self.ns(EnvScope::User) =~= old(self).ns(EnvScope::User).remove(
                                name@,
                            ));
                        }
                        Ok(())
                    },
                    None => {
                        proof {
                            assert(self.ns(EnvScope::User) =~= old(self).ns(EnvScope::User));
                        }
                        Err(EnvError::NotFound(key))
                    },
                }
            },
            EnvScope::System => {
                match self.system_ns.remove(&key) {
                    Some(_) => {
                        proof {
                            assert(self.ns(EnvScope::System) =~= old(self).ns(
                                EnvScope::System,
                            ).remove(name@));
                        }
                        Ok(())
                    },
                    None => {
                        proof {
                            assert(self.ns(EnvScope::System) =~= old(self).ns(EnvScope::System));
                        }
                        Err(EnvError::NotFound(key))
                    },
                }
            },
        }
    }

    pub fn delete_user_env_var(&mut self, name: &str) -> (r: EnvResult<()>)
        requires
            old(self).wf(),
        ensures
            final(self).wf(),
            final(self).same_flags(*old(self)),
            !old(self).available(EnvScope::User) ==> (r matches Err(EnvError::StoreUnavailable(_)))
                && final(self).unchanged_from(*old(self)),
            old(self).available(EnvScope::User) && !old(self).ns(EnvScope::User).contains_key(name@)
                ==> (r matches Err(EnvError::NotFound(_))) && final(self).unchanged_from(
                *old(self),
            ),
            old(self).available(EnvScope::User) && old(self).ns(EnvScope::User).contains_key(name@)
                ==> r is Ok && final(self).ns(EnvScope::User) == old(self).ns(
                EnvScope::User,
            ).remove(name@) && final(self).ns(EnvScope::System) == old(self).ns(EnvScope::System),
    {
        self.delete(EnvScope::User, name)
    }

    pub fn delete_system_env_var(&mut self, name: &str) -> (r: EnvResult<()>)
        requires
            old(self).wf(),
        ensures
            final(self).wf(),
            final(self).same_flags(*old(self)),
            !old(self).available(EnvScope::System) ==> (r matches Err(
                EnvError::StoreUnavailable(_),
            )) && final(self).unchanged_from(*old(self)),
            old(self).available(EnvScope::System) && !old(self).system_writable ==> (r matches Err(
                EnvError::PermissionDenied(_),
            )) && final(self).unchanged_from(*old(self)),
            old(self).available(EnvScope::System) && old(self).system_writable && !old(self).ns(
                EnvScope::System,
            ).contains_key(name@) ==> (r matches Err(EnvError::NotFound(_)))
                && final(self).unchanged_from(*old(self)),
            old(self).available(EnvScope::System) && old(self).system_writable && old(self).ns(
                EnvScope::System,
            ).contains_key(name@) ==> r is Ok && final(self).ns(EnvScope::System) == old(self).ns(
                EnvScope::System,
            ).remove(name@) && final(self).ns(EnvScope::User) == old(self).ns(EnvScope::User),
    {
        self.delete(EnvScope::System, name)
    }
}

/// The other of the two scopes.
pub open spec fn other_scope(scope: EnvScope) -> EnvScope {
    match scope {
        EnvScope::User => EnvScope::System,
        EnvScope::System => EnvScope::User,
    }
}

/// `entries` reports exactly the mapping `vis`: every reported pair is in
/// `vis`, and every key of `vis` is reported.
pub open spec fn entries_report(
    entries: Seq<(String, String)>,
    vis: Map<Seq<char>, Seq<char>>,
) -> bool {
    &&& forall|a: int|
        0 <= a < entries.len() ==> vis.contains_key((#[trigger] entries[a]).0@)
            && vis[entries[a].0@] == entries[a].1@
    &&& forall|k: Seq<char>|
        #[trigger] vis.contains_key(k) ==> exists|a: int|
            0 <= a < entries.len() && (#[trigger] entries[a]).0@ == k
}

/// Collect the decodable entries of one namespace, skipping the rest.
fn enumerate_ns(ns: &Assoc<StoreSlot>) -> (entries: Vec<(String, String)>)
    requires
        ns.wf(),
    ensures
        entries_report(entries@, visible_of(ns@.map_values(|s: StoreSlot| s@))),
{
    let ghost vis = visible_of(ns@.map_values(|s: StoreSlot| s@));
    let mut entries: Vec<(String, String)> = Vec::new();
    let mut i: usize = 0;
    while i < ns.pairs.len()
        invariant
            ns.wf(),
            i <= ns.pairs.len(),
            vis == visible_of(ns@.map_values(|s: StoreSlot| s@)),
            forall|a: int|
                0 <= a < entries@.len() ==> vis.contains_key((#[trigger] entries@[a]).0@)
                    && vis[entries@[a].0@] == entries@[a].1@,
            forall|j: int|
                0 <= j < i && (#[trigger] ns.kv()[j]).1@.ok ==> exists|a: int|
                    0 <= a < entries@.len() && (#[trigger] entries@[a]).0@ == ns.kv()[j].0,
        decreases ns.pairs.len() - i,
    {
        let ghost old_entries = entries@;
        let p = &ns.pairs[i];
        proof {
            lemma_map_of_index(ns.kv(), i as int);
        }
        if p.1.ok {
            entries.push((p.0.clone(), p.1.value.clone()));
        }
        proof {
            assert forall|j: int| 0 <= j < i + 1 && (#[trigger] ns.kv()[j]).1@.ok implies exists|
                a: int,
            | 0 <= a < entries@.len() && (#[trigger] entries@[a]).0@ == ns.kv()[j].0 by {
                if j == i {
                    assert(entries@[entries@.len() - 1].0@ == ns.kv()[j].0);
                } else {
                    let a = choose|a: int|
                        0 <= a < old_entries.len() && (#[trigger] old_entries[a]).0@
                            == ns.kv()[j].0;
                    assert(entries@[a].0@ == ns.kv()[j].0);
                }
            }
        }
        i += 1;
    }
    proof {
        lemma_map_of_dom(ns.kv());
        assert forall|k: Seq<char>| #[trigger] vis.contains_key(k) implies exists|a: int|
            0 <= a < entries@.len() && (#[trigger] entries@[a]).0@ == k by {
            let j = choose|j: int| 0 <= j < ns.kv().len() && ns.kv()[j].0 == k;
            lemma_map_of_index(ns.kv(), j);
            assert(ns.kv()[j].1@.ok);
        }
    }
    entries
}

} // verus!

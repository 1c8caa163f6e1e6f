//! Profiles: named, togglable bundles of variable assignments, kept in a
//! registry that is persisted independently of the live variable cache.

use vstd::prelude::*;

use crate::assoc::lemma_map_of_dom;
use crate::assoc::lemma_map_of_index;
use crate::assoc::lemma_map_of_len;
use crate::assoc::lemma_map_of_views;
use crate::assoc::unique_keys;
use crate::assoc::Assoc;
use crate::clock::now_timestamp_millis;
use crate::text::contains_seq;
use crate::text::contains_str;
use crate::text::lower_of;
use crate::text::to_lowercase;
use crate::variable::EnvScope;
use crate::variable::EnvVariable;

verus! {

/// Mathematical image of a profile.
pub ghost struct ProfileView {
    pub name: Seq<char>,
    pub description: Option<Seq<char>>,
    pub enabled: bool,
    pub vars: Map<Seq<char>, Seq<char>>,
    pub scope: EnvScope,
    pub created_at: int,
    pub updated_at: int,
}

/// A named bundle of variable assignments with an enabled flag and a single
/// scope.
#[derive(Debug)]
pub struct EnvProfile {
    pub name: String,
    pub description: Option<String>,
    pub enabled: bool,
    pub variables: Assoc<String>,
    pub scope: EnvScope,
    pub created_at: i64,
    pub updated_at: i64,
}

impl View for EnvProfile {
    type V = ProfileView;

    open spec fn view(&self) -> ProfileView {
        ProfileView {
            name: self.name@,
            description: match self.description {
                Some(d) => Some(d@),
                None => None,
            },
            enabled: self.enabled,
            vars: self.variables@.map_values(|v: String| v@),
            scope: self.scope,
            created_at: self.created_at as int,
            updated_at: self.updated_at as int,
        }
    }
}

impl EnvProfile {
    pub open spec fn wf(self) -> bool {
        self.variables.wf()
    }

    /// A fresh, disabled profile with no assignments.
    pub fn new(name: String, scope: EnvScope) -> (r: Self)
        ensures
            r.wf(),
            r@.name == name@,
            r@.scope == scope,
            !r@.enabled,
            r@.description is None,
            r@.vars == Map::<Seq<char>, Seq<char>>::empty(),
            r@.created_at == r@.updated_at,
    {
        let now = now_timestamp_millis();
        let r = EnvProfile {
            name,
            description: None,
            enabled: false,
            variables: Assoc::new(),
            scope,
            created_at: now,
            updated_at: now,
        };
        proof {
            assert(r@.vars =~= Map::<Seq<char>, Seq<char>>::empty());
        }
        r
    }

    /// Flip the enabled flag; no store I/O of any kind.
    pub fn set_enabled(&mut self, enabled: bool)
        ensures
            old(self).wf() ==> final(self).wf(),
            final(self)@ == (ProfileView {
                enabled,
                updated_at: final(self)@.updated_at,
                ..old(self)@
            }),
    {
        self.enabled = enabled;
        self.updated_at = now_timestamp_millis();
    }

    /// Add or overwrite one assignment.
    pub fn add_variable(&mut self, name: String, value: String)
        requires
            old(self).wf(),
        ensures
            final(self).wf(),
            final(self)@ == (ProfileView {
                vars: old(self)@.vars.insert(name@, value@),
                updated_at: final(self)@.updated_at,
                ..old(self)@
            }),
    {
        self.variables.insert(name, value);
        self.updated_at = now_timestamp_millis();
        proof {
            assert(self@.vars =~= old(self)@.vars.insert(name@, value@));
        }
    }

    /// Remove one assignment; the profile is untouched when the name is
    /// absent.
    pub fn remove_variable(&mut self, name: &str) -> (r: Option<String>)
        requires
            old(self).wf(),
        ensures
            final(self).wf(),
            match r {
                Some(v) => old(self)@.vars.contains_key(name@) && v@ == old(self)@.vars[name@]
                    && final(self)@ == (ProfileView {
                    vars: old(self)@.vars.remove(name@),
                    updated_at: final(self)@.updated_at,
                    ..old(self)@
                }),
                None => !old(self)@.vars.contains_key(name@) && final(self)@ == old(self)@,
            },
    {
        let key = name.to_owned();
        let r = self.variables.remove(&key);
        match r {
            Some(v) => {
                self.updated_at = now_timestamp_millis();
                proof {
                    assert(self@.vars =~= old(self)@.vars.remove(name@));
                }
                Some(v)
            },
            None => {
                proof {
                    assert(self@.vars =~= old(self)@.vars);
                }
                None
            },
        }
    }

    pub fn get_variable<'a>(&'a self, name: &str) -> (r: Option<&'a String>)
        requires
            self.wf(),
        ensures
            match r {
                Some(v) => self@.vars.contains_key(name@) && v@ == self@.vars[name@],
                None => !self@.vars.contains_key(name@),
            },
    {
        let key = name.to_owned();
        self.variables.get(&key)
    }

    /// Attach a description.
    pub fn set_description(&mut self, description: String)
        ensures
            old(self).wf() ==> final(self).wf(),
            final(self)@ == (ProfileView {
                description: Some(description@),
                updated_at: final(self)@.updated_at,
                ..old(self)@
            }),
    {
        self.description = Some(description);
        self.updated_at = now_timestamp_millis();
    }

    /// The assignments as stored pairs, in insertion order.
    pub fn iter_variables(&self) -> (r: &Vec<(String, String)>)
        ensures
            r@.len() == self.variables.kv().len(),
            forall|i: int|
                0 <= i < r@.len() ==> (#[trigger] r@[i]).0@ == self.variables.kv()[i].0
                    && r@[i].1@ == self.variables.kv()[i].1@,
    {
        &self.variables.pairs
    }

    /// The assignments as variables of this profile's scope, with fresh
    /// timestamps.
    pub fn to_env_variables(&self) -> (r: Vec<EnvVariable>)
        ensures
            r@.len() == self.variables.kv().len(),
            forall|i: int|
                0 <= i < r@.len() ==> (#[trigger] r@[i])@.name == self.variables.kv()[i].0
                    && r@[i]@.value == self.variables.kv()[i].1@ && r@[i]@.scope == self.scope
                    && r@[i]@.description is None,
    {
        let mut r: Vec<EnvVariable> = Vec::new();
        let mut i: usize = 0;
        while i < self.variables.pairs.len()
            invariant
                i <= self.variables.pairs.len(),
                r@.len() == i,
                forall|j: int|
                    0 <= j < i ==> (#[trigger] r@[j])@.name == self.variables.kv()[j].0
                        && r@[j]@.value == self.variables.kv()[j].1@ && r@[j]@.scope == self.scope
                        && r@[j]@.description is None,
            decreases self.variables.pairs.len() - i,
        {
            let p = &self.variables.pairs[i];
            r.push(EnvVariable::new(p.0.clone(), p.1.clone(), self.scope));
            i += 1;
        }
        r
    }

    pub fn len(&self) -> (n: usize)
        requires
            self.wf(),
        ensures
            n == self@.vars.dom().len(),
    {
        proof {
            lemma_map_of_len(self.variables.kv());
            assert(self@.vars.dom() =~= self.variables@.dom());
        }
        self.variables.len()
    }

    pub fn is_empty(&self) -> (r: bool)
        requires
            self.wf(),
        ensures
            r == (self@.vars.dom().len() == 0),
    {
        proof {
            lemma_map_of_len(self.variables.kv());
            assert(self@.vars.dom() =~= self.variables@.dom());
        }
        self.variables.is_empty()
    }
}

impl Clone for EnvProfile {
    /// A deep copy with the same abstraction.
    fn clone(&self) -> (r: Self)
        ensures
            r@ == self@,
            self.wf() ==> r.wf(),
    {
        let mut pairs: Vec<(String, String)> = Vec::new();
        let mut i: usize = 0;
        while i < self.variables.pairs.len()
            invariant
                i <= self.variables.pairs.len(),
                pairs@.len() == i,
                forall|j: int|
                    0 <= j < i ==> (#[trigger] pairs@[j]).0@ == self.variables.pairs@[j].0@
                        && pairs@[j].1@ == self.variables.pairs@[j].1@,
            decreases self.variables.pairs.len() - i,
        {
            let p = &self.variables.pairs[i];
            pairs.push((p.0.clone(), p.1.clone()));
            i += 1;
        }
        let r = EnvProfile {
            name: self.name.clone(),
            description: match &self.description {
                Some(d) => Some(d.clone()),
                None => None,
            },
            enabled: self.enabled,
            variables: Assoc { pairs },
            scope: self.scope,
            created_at: self.created_at,
            updated_at: self.updated_at,
        };
        proof {
            lemma_map_of_views(self.variables.kv(), r.variables.kv(), |v: String| v@);
            assert(r@.vars =~= self@.vars);
        }
        r
    }
}

/// The images of a sequence of profiles.
pub open spec fn profile_views_of(s: Seq<EnvProfile>) -> Seq<ProfileView> {
    s.map_values(|p: EnvProfile| p@)
}

/// Case-insensitive match of the folded query `q` against a profile's name
/// or description.
pub open spec fn profile_matches(p: ProfileView, q: Seq<char>) -> bool {
    ||| contains_seq(lower_of(p.name), q)
    ||| (p.description matches Some(d) && contains_seq(lower_of(d), q))
}

/// The name-keyed registry of profiles, loaded and saved as one unit.
#[derive(Debug)]
pub struct EnvProfiles {
    pub profiles: Assoc<EnvProfile>,
}

impl View for EnvProfiles {
    type V = Map<Seq<char>, ProfileView>;

    open spec fn view(&self) -> Map<Seq<char>, ProfileView> {
        self.profiles@.map_values(|p: EnvProfile| p@)
    }
}

impl EnvProfiles {
    /// Keys are unique, each profile is stored under its own name, and each
    /// stored profile is itself well-formed.
    pub open spec fn wf(self) -> bool {
        &&& self.profiles.wf()
        &&& forall|k: Seq<char>|
            #[trigger] self.profiles@.contains_key(k) ==> self.profiles@[k].name@ == k
                && self.profiles@[k].wf()
    }

    /// The stored profile images in insertion order.
    pub open spec fn items(self) -> Seq<ProfileView> {
        self.profiles.kv().map_values(|p: (Seq<char>, EnvProfile)| p.1@)
    }

    pub fn new() -> (r: Self)
        ensures
            r.wf(),
            r@ == Map::<Seq<char>, ProfileView>::empty(),
            r.items().len() == 0,
    {
        let r = EnvProfiles { profiles: Assoc::new() };
        proof {
            assert(r@ =~= Map::<Seq<char>, ProfileView>::empty());
        }
        r
    }

    /// Insert or overwrite the entry under the profile's own name.
    pub fn add(&mut self, profile: EnvProfile)
        requires
            old(self).wf(),
            profile.wf(),
        ensures
            final(self).wf(),
            final(self)@ == old(self)@.insert(profile.name@, profile@),
    {
        let key = profile.name.clone();
        self.profiles.insert(key, profile);
        proof {
            assert(self@ =~= old(self)@.insert(profile.name@, profile@));
        }
    }

    /// Remove the entry under `name`, returning it if it was present.
    pub fn remove(&mut self, name: &str) -> (r: Option<EnvProfile>)
        requires
            old(self).wf(),
        ensures
            final(self).wf(),
            final(self)@ == old(self)@.remove(name@),
            match r {
                Some(p) => old(self)@.contains_key(name@) && p@ == old(self)@[name@] && p.wf(),
                None => !old(self)@.contains_key(name@),
            },
    {
        let key = name.to_owned();
        let r = self.profiles.remove(&key);
        proof {
            assert(self@ =~= old(self)@.remove(name@));
        }
        r
    }

    pub fn get<'a>(&'a self, name: &str) -> (r: Option<&'a EnvProfile>)
        requires
            self.wf(),
        ensures
            match r {
                Some(p) => self@.contains_key(name@) && p@ == self@[name@] && p.wf(),
                None => !self@.contains_key(name@),
            },
    {
        let key = name.to_owned();
        self.profiles.get(&key)
    }

    pub fn len(&self) -> (n: usize)
        requires
            self.wf(),
        ensures
            n == self@.dom().len(),
    {
        proof {
            lemma_map_of_len(self.profiles.kv());
            assert(self@.dom() =~= self.profiles@.dom());
        }
        self.profiles.len()
    }

    pub fn is_empty(&self) -> (r: bool)
        requires
            self.wf(),
        ensures
            r == (self@.dom().len() == 0),
    {
        proof {
            lemma_map_of_len(self.profiles.kv());
            assert(self@.dom() =~= self.profiles@.dom());
        }
        self.profiles.is_empty()
    }

    /// The enabled profiles, in storage order.
    pub fn enabled_profiles(&self) -> (r: Vec<EnvProfile>)
        requires
            self.wf(),
        ensures
            profile_views_of(r@) == self.items().filter(|p: ProfileView| p.enabled),
    {
        let mut r: Vec<EnvProfile> = Vec::new();
        let mut i: usize = 0;
        proof {
            reveal(Seq::filter);
            assert(self.items().subrange(0, 0) =~= Seq::<ProfileView>::empty());
            assert(profile_views_of(r@) =~= self.items().subrange(0, 0).filter(
                |p: ProfileView| p.enabled,
            ));
        }
        while i < self.profiles.pairs.len()
            invariant
                self.wf(),
                i <= self.profiles.pairs.len(),
                profile_views_of(r@) == self.items().subrange(0, i as int).filter(
                    |p: ProfileView| p.enabled,
                ),
            decreases self.profiles.pairs.len() - i,
        {
            let p = &self.profiles.pairs[i].1;
            let ghost s_prev = self.items().subrange(0, i as int);
            let ghost s_new = self.items().subrange(0, i as int + 1);
            proof {
                reveal(Seq::filter);
                assert(s_new.drop_last() =~= s_prev);
                assert(s_new.last() == self.items()[i as int]);
                lemma_map_of_index(self.profiles.kv(), i as int);
            }
            if p.enabled {
                r.push(p.clone());
                proof {
                    assert(profile_views_of(r@) =~= s_prev.filter(|p: ProfileView| p.enabled).push(
                        p@,
                    ));
                }
            }
            proof {
                assert(profile_views_of(r@) =~= s_new.filter(|p: ProfileView| p.enabled));
            }
            i += 1;
        }
        proof {
            assert(self.items().subrange(0, self.profiles.pairs.len() as int) =~= self.items());
        }
        r
    }

    /// The disabled profiles, in storage order.
    pub fn disabled_profiles(&self) -> (r: Vec<EnvProfile>)
        requires
            self.wf(),
        ensures
            profile_views_of(r@) == self.items().filter(|p: ProfileView| !p.enabled),
    {
        let mut r: Vec<EnvProfile> = Vec::new();
        let mut i: usize = 0;
        proof {
            reveal(Seq::filter);
            assert(self.items().subrange(0, 0) =~= Seq::<ProfileView>::empty());
            assert(profile_views_of(r@) =~= self.items().subrange(0, 0).filter(
                |p: ProfileView| !p.enabled,
            ));
        }
        while i < self.profiles.pairs.len()
            invariant
                self.wf(),
                i <= self.profiles.pairs.len(),
                profile_views_of(r@) == self.items().subrange(0, i as int).filter(
                    |p: ProfileView| !p.enabled,
                ),
            decreases self.profiles.pairs.len() - i,
        {
            let p = &self.profiles.pairs[i].1;
            let ghost s_prev = self.items().subrange(0, i as int);
            let ghost s_new = self.items().subrange(0, i as int + 1);
            proof {
                reveal(Seq::filter);
                assert(s_new.drop_last() =~= s_prev);
                assert(s_new.last() == self.items()[i as int]);
                lemma_map_of_index(self.profiles.kv(), i as int);
            }
            if !p.enabled {
                r.push(p.clone());
                proof {
                    assert(profile_views_of(r@) =~= s_prev.filter(|p: ProfileView| !p.enabled).push(
                        p@,
                    ));
                }
            }
            proof {
                assert(profile_views_of(r@) =~= s_new.filter(|p: ProfileView| !p.enabled));
            }
            i += 1;
        }
        proof {
            assert(self.items().subrange(0, self.profiles.pairs.len() as int) =~= self.items());
        }
        r
    }

    /// Case-insensitive search across profile names and descriptions.
    pub fn search(&self, query: &str) -> (r: Vec<EnvProfile>)
        requires
            self.wf(),
        ensures
            profile_views_of(r@) == self.items().filter(
                |p: ProfileView| profile_matches(p, lower_of(query@)),
            ),
    {
        let q = to_lowercase(query);
        let ghost qs = lower_of(query@);
        let mut r: Vec<EnvProfile> = Vec::new();
        let mut i: usize = 0;
        proof {
            reveal(Seq::filter);
            assert(self.items().subrange(0, 0) =~= Seq::<ProfileView>::empty());
            assert(profile_views_of(r@) =~= self.items().subrange(0, 0).filter(
                |p: ProfileView| profile_matches(p, qs),
            ));
        }
        while i < self.profiles.pairs.len()
            invariant
                self.wf(),
                i <= self.profiles.pairs.len(),
                q@ == qs,
                profile_views_of(r@) == self.items().subrange(0, i as int).filter(
                    |p: ProfileView| profile_matches(p, qs),
                ),
            decreases self.profiles.pairs.len() - i,
        {
            let p = &self.profiles.pairs[i].1;
            let ghost s_prev = self.items().subrange(0, i as int);
            let ghost s_new = self.items().subrange(0, i as int + 1);
            proof {
                reveal(Seq::filter);
                assert(s_new.drop_last() =~= s_prev);
                assert(s_new.last() == self.items()[i as int]);
            }
            let name_folded = to_lowercase(p.name.as_str());
            let mut matched = contains_str(name_folded.as_str(), q.as_str());
            if !matched {
                match &p.description {
                    Some(d) => {
                        let desc_folded = to_lowercase(d.as_str());
                        matched = contains_str(desc_folded.as_str(), q.as_str());
                    },
                    None => {},
                }
            }
            proof {
                assert(matched == profile_matches(self.items()[i as int], qs));
            }
            if matched {
                r.push(p.clone());
                proof {
                    assert(profile_views_of(r@) =~= s_prev.filter(
                        |p: ProfileView| profile_matches(p, qs),
                    ).push(p@));
                }
            }
            proof {
                assert(profile_views_of(r@) =~= s_new.filter(
                    |p: ProfileView| profile_matches(p, qs),
                ));
            }
            i += 1;
        }
        proof {
            assert(self.items().subrange(0, self.profiles.pairs.len() as int) =~= self.items());
        }
        r
    }
}

impl Clone for EnvProfiles {
    /// A deep copy with the same abstraction.
    fn clone(&self) -> (r: Self)
        ensures
            r@ == self@,
            self.wf() ==> r.wf(),
    {
        let mut pairs: Vec<(String, EnvProfile)> = Vec::new();
        let mut i: usize = 0;
        while i < self.profiles.pairs.len()
            invariant
                i <= self.profiles.pairs.len(),
                pairs@.len() == i,
                forall|j: int|
                    0 <= j < i ==> (#[trigger] pairs@[j]).0@ == self.profiles.pairs@[j].0@
                        && pairs@[j].1@ == self.profiles.pairs@[j].1@ && (
                    self.profiles.pairs@[j].1.wf() ==> pairs@[j].1.wf()),
            decreases self.profiles.pairs.len() - i,
        {
            let p = &self.profiles.pairs[i];
            pairs.push((p.0.clone(), p.1.clone()));
            i += 1;
        }
        let r = EnvProfiles { profiles: Assoc { pairs } };
        proof {
            lemma_map_of_views(self.profiles.kv(), r.profiles.kv(), |p: EnvProfile| p@);
            assert(r@ =~= self@);
            if self.wf() {
                assert(unique_keys(r.profiles.kv()));
                lemma_map_of_dom(self.profiles.kv());
                lemma_map_of_dom(r.profiles.kv());
                assert forall|k: Seq<char>| #[trigger] r.profiles@.contains_key(k) implies r.profiles@[k].name@
                    == k && r.profiles@[k].wf() by {
                    let j = choose|j: int|
                        0 <= j < r.profiles.kv().len() && r.profiles.kv()[j].0 == k;
                    lemma_map_of_index(r.profiles.kv(), j);
                    assert(self.profiles.kv()[j].0 == k);
                    lemma_map_of_index(self.profiles.kv(), j);
                    assert(self.profiles@.contains_key(k));
                    assert(self.profiles@[k] == self.profiles.kv()[j].1);
                    assert(r.profiles@[k] == r.profiles.kv()[j].1);
                }
            }
        }
        r
    }
}

} // verus!

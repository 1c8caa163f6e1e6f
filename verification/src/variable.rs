//! Variables and the in-memory variable cache.
//!
//! An `EnvVariable` is a named text value in one of the two scopes; an
//! `EnvVariables` value is the name-keyed cache snapshot the manager works
//! on. The cache abstraction is a map from names to variable images.

use vstd::prelude::*;
use vstd::string::StrSliceExecFns;

use crate::assoc::lemma_map_of_dom;
use crate::assoc::lemma_map_of_len;
use crate::assoc::lemma_map_of_views;
use crate::assoc::unique_keys;
use crate::assoc::Assoc;
use crate::clock::now_timestamp_millis;
use crate::text::contains_seq;
use crate::text::contains_str;
use crate::text::lower_of;
use crate::text::to_lowercase;

verus! {

/// The authority tier of a variable: the namespace it lives in and the
/// rights needed to mutate it.
#[derive(Debug, Clone, Copy, PartialEq, Eq, Structural)]
pub enum EnvScope {
    User,
    System,
}

/// Mathematical image of a variable.
pub ghost struct VarView {
    pub name: Seq<char>,
    pub value: Seq<char>,
    pub scope: EnvScope,
    pub description: Option<Seq<char>>,
    pub created_at: int,
    pub updated_at: int,
}

/// A named text variable with its scope, optional description and
/// timestamps.
#[derive(Debug)]
pub struct EnvVariable {
    pub name: String,
    pub value: String,
    pub scope: EnvScope,
    pub description: Option<String>,
    pub created_at: i64,
    pub updated_at: i64,
}

impl View for EnvVariable {
    type V = VarView;

    open spec fn view(&self) -> VarView {
        VarView {
            name: self.name@,
            value: self.value@,
            scope: self.scope,
            description: match self.description {
                Some(d) => Some(d@),
                None => None,
            },
            created_at: self.created_at as int,
            updated_at: self.updated_at as int,
        }
    }
}

impl EnvVariable {
    pub fn new(name: String, value: String, scope: EnvScope) -> (r: Self)
        ensures
            r@.name == name@,
            r@.value == value@,
            r@.scope == scope,
            r@.description is None,
            r@.created_at == r@.updated_at,
    {
        let now = now_timestamp_millis();
        EnvVariable { name, value, scope, description: None, created_at: now, updated_at: now }
    }

    /// Replace the value and refresh the update timestamp; identity, scope,
    /// description and creation time are untouched.
    pub fn update_value(&mut self, new_value: String)
        ensures
            final(self)@ == (VarView {
                value: new_value@,
                updated_at: final(self)@.updated_at,
                ..old(self)@
            }),
    {
        self.value = new_value;
        self.updated_at = now_timestamp_millis();
    }

    /// Attach a description and refresh the update timestamp.
    pub fn set_description(&mut self, description: String)
        ensures
            final(self)@ == (VarView {
                description: Some(description@),
                updated_at: final(self)@.updated_at,
                ..old(self)@
            }),
    {
        self.description = Some(description);
        self.updated_at = now_timestamp_millis();
    }
}

impl Clone for EnvVariable {
    fn clone(&self) -> (r: Self)
        ensures
            r@ == self@,
    {
        EnvVariable {
            name: self.name.clone(),
            value: self.value.clone(),
            scope: self.scope,
            description: match &self.description {
                Some(d) => Some(d.clone()),
                None => None,
            },
            created_at: self.created_at,
            updated_at: self.updated_at,
        }
    }
}

/// A control character in the sense of the variable-name rule.
pub open spec fn is_control_char(c: char) -> bool {
    (c as u32) < 32 || (c as u32) == 127
}

/// A usable variable name: non-empty, free of control characters and of
/// `=`.
pub open spec fn valid_name(s: Seq<char>) -> bool {
    s.len() > 0 && forall|i: int| 0 <= i < s.len() ==> !is_control_char(#[trigger] s[i]) && s[i] != '='
}

/// Decide `valid_name` for a concrete name.
pub fn check_name(name: &str) -> (r: bool)
    ensures
        r == valid_name(name@),
{
    let len = name.unicode_len();
    if len == 0 {
        return false;
    }
    let mut i: usize = 0;
    while i < len
        invariant
            len == name@.len(),
            i <= len,
            forall|j: int| 0 <= j < i ==> !is_control_char(#[trigger] name@[j]) && name@[j] != '=',
        decreases len - i,
    {
        let c = name.get_char(i);
        if (c as u32) < 32 || (c as u32) == 127 || c == '=' {
            return false;
        }
        i += 1;
    }
    true
}

/// The images of a sequence of variables.
pub open spec fn views_of(s: Seq<EnvVariable>) -> Seq<VarView> {
    s.map_values(|v: EnvVariable| v@)
}

/// Case-insensitive match of the folded query `q` against name, value or
/// description.
pub open spec fn var_matches(v: VarView, q: Seq<char>) -> bool {
    ||| contains_seq(lower_of(v.name), q)
    ||| contains_seq(lower_of(v.value), q)
    ||| (v.description matches Some(d) && contains_seq(lower_of(d), q))
}

/// The subsequence of images matching the folded query `q`, in order.
pub open spec fn filter_matches(s: Seq<VarView>, q: Seq<char>) -> Seq<VarView> {
    s.filter(|v: VarView| var_matches(v, q))
}

/// The subsequence of images in scope `scope`, in order.
pub open spec fn filter_scope(s: Seq<VarView>, scope: EnvScope) -> Seq<VarView> {
    s.filter(|v: VarView| v.scope == scope)
}

/// The name-keyed cache of variables.
#[derive(Debug)]
pub struct EnvVariables {
    pub variables: Assoc<EnvVariable>,
}

impl View for EnvVariables {
    type V = Map<Seq<char>, VarView>;

    open spec fn view(&self) -> Map<Seq<char>, VarView> {
        self.variables@.map_values(|v: EnvVariable| v@)
    }
}

impl EnvVariables {
    /// Keys are unique and each entry is stored under its own name.
    pub open spec fn wf(self) -> bool {
        &&& self.variables.wf()
        &&& forall|k: Seq<char>|
            #[trigger] self.variables@.contains_key(k) ==> self.variables@[k].name@ == k
    }

    /// The stored variable images in insertion order.
    pub open spec fn items(self) -> Seq<VarView> {
        self.variables.kv().map_values(|p: (Seq<char>, EnvVariable)| p.1@)
    }

    pub fn new() -> (r: Self)
        ensures
            r.wf(),
            r@ == Map::<Seq<char>, VarView>::empty(),
            r.items().len() == 0,
    {
        let r = EnvVariables { variables: Assoc::new() };
        proof {
            assert(r@ =~= Map::<Seq<char>, VarView>::empty());
        }
        r
    }

    /// Insert or overwrite the entry under the variable's own name.
    pub fn add(&mut self, variable: EnvVariable)
        requires
            old(self).wf(),
        ensures
            final(self).wf(),
            final(self)@ == old(self)@.insert(variable.name@, variable@),
    {
        let key = variable.name.clone();
        self.variables.insert(key, variable);
        proof {
            assert(self@ =~= old(self)@.insert(variable.name@, variable@));
        }
    }

    /// Remove the entry under `name`, returning it if it was present.
    pub fn remove(&mut self, name: &str) -> (r: Option<EnvVariable>)
        requires
            old(self).wf(),
        ensures
            final(self).wf(),
            final(self)@ == old(self)@.remove(name@),
            match r {
                Some(v) => old(self)@.contains_key(name@) && v@ == old(self)@[name@],
                None => !old(self)@.contains_key(name@),
            },
    {
        let key = name.to_owned();
        let r = self.variables.remove(&key);
        proof {
            assert(self@ =~= old(self)@.remove(name@));
        }
        r
    }

    pub fn get<'a>(&'a self, name: &str) -> (r: Option<&'a EnvVariable>)
        requires
            self.wf(),
        ensures
            match r {
                Some(v) => self@.contains_key(name@) && v@ == self@[name@],
                None => !self@.contains_key(name@),
            },
    {
        let key = name.to_owned();
        self.variables.get(&key)
    }

    pub fn len(&self) -> (n: usize)
        requires
            self.wf(),
        ensures
            n == self@.dom().len(),
            n == self.items().len(),
    {
        proof {
            lemma_map_of_len(self.variables.kv());
            assert(self@.dom() =~= self.variables@.dom());
        }
        self.variables.len()
    }

    pub fn is_empty(&self) -> (r: bool)
        requires
            self.wf(),
        ensures
            r == (self@.dom().len() == 0),
    {
        proof {
            lemma_map_of_len(self.variables.kv());
            assert(self@.dom() =~= self.variables@.dom());
        }
        self.variables.is_empty()
    }

    /// The variables of scope `scope`, in storage order.
    pub fn filter_by_scope(&self, scope: EnvScope) -> (r: Vec<EnvVariable>)
        requires
            self.wf(),
        ensures
            views_of(r@) == filter_scope(self.items(), scope),
    {
        let mut r: Vec<EnvVariable> = Vec::new();
        let mut i: usize = 0;
        proof {
            reveal(Seq::filter);
            assert(self.items().subrange(0, 0) =~= Seq::<VarView>::empty());
            assert(views_of(r@) =~= filter_scope(self.items().subrange(0, 0), scope));
        }
        while i < self.variables.pairs.len()
            invariant
                self.wf(),
                i <= self.variables.pairs.len(),
                views_of(r@) == filter_scope(self.items().subrange(0, i as int), scope),
            decreases self.variables.pairs.len() - i,
        {
            let v = &self.variables.pairs[i].1;
            let ghost s_prev = self.items().subrange(0, i as int);
            let ghost s_new = self.items().subrange(0, i as int + 1);
            proof {
                reveal(Seq::filter);
                assert(s_new.drop_last() =~= s_prev);
                assert(s_new.last() == self.items()[i as int]);
            }
            if v.scope == scope {
                r.push(v.clone());
                proof {
                    assert(views_of(r@) =~= filter_scope(s_prev, scope).push(v@));
                }
            }
            proof {
                assert(views_of(r@) =~= filter_scope(s_new, scope));
            }
            i += 1;
        }
        proof {
            assert(self.items().subrange(0, self.variables.pairs.len() as int) =~= self.items());
        }
        r
    }

    /// Case-insensitive search across name, value and description.
    pub fn search(&self, query: &str) -> (r: Vec<EnvVariable>)
        requires
            self.wf(),
        ensures
            views_of(r@) == filter_matches(self.items(), lower_of(query@)),
    {
        let q = to_lowercase(query);
        let ghost qs = lower_of(query@);
        let mut r: Vec<EnvVariable> = Vec::new();
        let mut i: usize = 0;
        proof {
            reveal(Seq::filter);
            assert(self.items().subrange(0, 0) =~= Seq::<VarView>::empty());
            assert(views_of(r@) =~= filter_matches(self.items().subrange(0, 0), qs));
        }
        while i < self.variables.pairs.len()
            invariant
                self.wf(),
                i <= self.variables.pairs.len(),
                q@ == qs,
                views_of(r@) == filter_matches(self.items().subrange(0, i as int), qs),
            decreases self.variables.pairs.len() - i,
        {
            let v = &self.variables.pairs[i].1;
            let ghost s_prev = self.items().subrange(0, i as int);
            let ghost s_new = self.items().subrange(0, i as int + 1);
            proof {
                reveal(Seq::filter);
                assert(s_new.drop_last() =~= s_prev);
                assert(s_new.last() == self.items()[i as int]);
            }
            let name_folded = to_lowercase(v.name.as_str());
            let mut matched = contains_str(name_folded.as_str(), q.as_str());
            if !matched {
                let value_folded = to_lowercase(v.value.as_str());
                matched = contains_str(value_folded.as_str(), q.as_str());
            }
            if !matched {
                match &v.description {
                    Some(d) => {
                        let desc_folded = to_lowercase(d.as_str());
                        matched = contains_str(desc_folded.as_str(), q.as_str());
                    },
                    None => {},
                }
            }
            proof {
                assert(matched == var_matches(self.items()[i as int], qs));
            }
            if matched {
                r.push(v.clone());
                proof {
                    assert(views_of(r@) =~= filter_matches(s_prev, qs).push(v@));
                }
            }
            proof {
                assert(views_of(r@) =~= filter_matches(s_new, qs));
            }
            i += 1;
        }
        proof {
            assert(self.items().subrange(0, self.variables.pairs.len() as int) =~= self.items());
        }
        r
    }
}

impl Clone for EnvVariables {
    /// A deep copy with the same abstraction.
    fn clone(&self) -> (r: Self)
        ensures
            r@ == self@,
            r.items() == self.items(),
            self.wf() ==> r.wf(),
    {
        let mut pairs: Vec<(String, EnvVariable)> = Vec::new();
        let mut i: usize = 0;
        while i < self.variables.pairs.len()
            invariant
                i <= self.variables.pairs.len(),
                pairs@.len() == i,
                forall|j: int|
                    0 <= j < i ==> (#[trigger] pairs@[j]).0@ == self.variables.pairs@[j].0@
                        && pairs@[j].1@ == self.variables.pairs@[j].1@,
            decreases self.variables.pairs.len() - i,
        {
            let p = &self.variables.pairs[i];
            pairs.push((p.0.clone(), p.1.clone()));
            i += 1;
        }
        let r = EnvVariables { variables: Assoc { pairs } };
        proof {
            lemma_map_of_views(self.variables.kv(), r.variables.kv(), |v: EnvVariable| v@);
            assert(r@ =~= self@);
            assert(r.items() =~= self.items());
            if self.wf() {
                assert(unique_keys(r.variables.kv()));
                lemma_map_of_dom(self.variables.kv());
                lemma_map_of_dom(r.variables.kv());
                assert forall|k: Seq<char>| #[trigger] r.variables@.contains_key(k) implies r.variables@[k].name@
                    == k by {
                    assert(self.variables@.contains_key(k));
                    assert(r@[k] == self@[k]);
                    assert(r.variables@[k].name@ == r@[k].name);
                    assert(self.variables@[k].name@ == self@[k].name);
                }
            }
        }
        r
    }
}

} // verus!

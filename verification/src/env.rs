//! Environment variables: an ordered key-value store.
use vstd::prelude::*;

use crate::driver::fs::{is_first_named, lemma_lookup_none, lemma_write_then_read, lookup};

verus! {

/// One environment variable.
pub struct EnvVar {
    pub key: String,
    pub val: String,
}

impl EnvVar {
    /// A copy of the variable.
    pub fn copy(&self) -> (r: EnvVar)
        ensures
            r.key@ == self.key@,
            r.val@ == self.val@,
    {
        EnvVar { key: self.key.clone(), val: self.val.clone() }
    }
}

/// The variables as (key, value) pairs in order.
pub open spec fn env_view(vars: Seq<EnvVar>) -> Seq<(Seq<char>, Seq<char>)> {
    vars.map_values(|e: EnvVar| (e.key@, e.val@))
}

/// `i` is the first variable named `key`.
pub open spec fn is_first_key(v: Seq<(Seq<char>, Seq<char>)>, key: Seq<char>, i: int) -> bool {
    &&& 0 <= i < v.len()
    &&& v[i].0 == key
    &&& forall|j: int| 0 <= j < i ==> (#[trigger] v[j]).0 != key
}

/// No variable is named `key`.
pub open spec fn no_key(v: Seq<(Seq<char>, Seq<char>)>, key: Seq<char>) -> bool {
    forall|j: int| 0 <= j < v.len() ==> (#[trigger] v[j]).0 != key
}

/// The environment store.
pub struct Env {
    pub vars: Vec<EnvVar>,
}

impl Env {
    /// The variables as (key, value) pairs in order.
    pub open spec fn view(&self) -> Seq<(Seq<char>, Seq<char>)> {
        env_view(self.vars@)
    }

    /// An empty environment.
    pub fn new() -> (r: Self)
        ensures
            r.view() == Seq::<(Seq<char>, Seq<char>)>::empty(),
    {
        let r = Env { vars: Vec::new() };
        assert(r.view() =~= Seq::<(Seq<char>, Seq<char>)>::empty());
        r
    }

    /// Add the boot defaults PATH, USER, HOME and TERM, in that order.
    pub fn init(&mut self)
        ensures
            final(self).view() == old(self).view() + seq![
                ("PATH"@, "/"@),
                ("USER"@, "root"@),
                ("HOME"@, "/"@),
                ("TERM"@, "xterm-256color"@),
            ],
    {
        self.vars.push(EnvVar { key: "PATH".to_owned(), val: "/".to_owned() });
        self.vars.push(EnvVar { key: "USER".to_owned(), val: "root".to_owned() });
        self.vars.push(EnvVar { key: "HOME".to_owned(), val: "/".to_owned() });
        self.vars.push(EnvVar { key: "TERM".to_owned(), val: "xterm-256color".to_owned() });
        assert(self.view() =~= old(self).view() + seq![
            ("PATH"@, "/"@),
            ("USER"@, "root"@),
            ("HOME"@, "/"@),
            ("TERM"@, "xterm-256color"@),
        ]);
    }

    /// The index of the first variable named `key`.
    fn find(&self, key: &String) -> (r: Option<usize>)
        ensures
            r matches Some(i) ==> is_first_key(self.view(), key@, i as int),
            r is None ==> no_key(self.view(), key@),
    {
        let mut i: usize = 0;
        while i < self.vars.len()
            invariant
                i <= self.vars@.len(),
                forall|j: int| 0 <= j < i ==> (#[trigger] self.view()[j]).0 != key@,
            decreases self.vars@.len() - i,
        {
            if self.vars[i].key == *key {
                return Some(i);
            }
            i = i + 1;
        }
        None
    }

    /// The value of the first variable named `key`.
    pub fn get(&self, key: &str) -> (r: Option<String>)
        ensures
            r matches Some(v) ==> exists|i: int|
                is_first_key(self.view(), key@, i) && v@ == (#[trigger] self.view()[i]).1,
            r is None ==> no_key(self.view(), key@),
    {
        let k = key.to_owned();
        match self.find(&k) {
            Some(i) => Some(self.vars[i].val.clone()),
            None => None,
        }
    }

    /// Set `key` to `val`: the first variable named `key` is updated, or a
    /// new one is appended.
    pub fn set(&mut self, key: &str, val: &str)
        ensures
            forall|i: int|
                #[trigger] is_first_key(old(self).view(), key@, i) ==> final(self).view() == old(
                    self,
                ).view().update(i, (key@, val@)),
            no_key(old(self).view(), key@) ==> final(self).view() == old(self).view().push(
                (key@, val@),
            ),
    {
        let k = key.to_owned();
        match self.find(&k) {
            Some(i) => {
                self.vars.set(i, EnvVar { key: k, val: val.to_owned() });
                assert(self.view() =~= old(self).view().update(i as int, (key@, val@)));
                assert forall|j: int| #[trigger] is_first_key(old(self).view(), key@, j) implies j
                    == i by {
                    if j < i {
                        assert(old(self).view()[j].0 == key@);
                    } else if j > i {
                        assert(old(self).view()[i as int].0 == key@);
                    }
                }
            },
            None => {
                self.vars.push(EnvVar { key: k, val: val.to_owned() });
                assert(self.view() =~= old(self).view().push((key@, val@)));
            },
        }
    }

    /// Remove every variable named `key`.
    pub fn unset(&mut self, key: &str)
        ensures
            final(self).view() == old(self).view().filter(|p: (Seq<char>, Seq<char>)| p.0 != key@),
    {
        let k = key.to_owned();
        let ghost pred = |p: (Seq<char>, Seq<char>)| p.0 != key@;
        let mut kept: Vec<EnvVar> = Vec::new();
        let mut i: usize = 0;
        while i < self.vars.len()
            invariant
                i <= self.vars@.len(),
                self.vars@ == old(self).vars@,
                k@ == key@,
                pred == (|p: (Seq<char>, Seq<char>)| p.0 != key@),
                env_view(kept@) == env_view(self.vars@).take(i as int).filter(pred),
            decreases self.vars@.len() - i,
        {
            let ghost before = env_view(self.vars@).take(i as int);
            proof {
                assert(env_view(self.vars@).take(i + 1) =~= before.push(env_view(self.vars@)[i as int]));
                before.lemma_filter_push(env_view(self.vars@)[i as int], pred);
            }
            if !(self.vars[i].key == k) {
                let c = self.vars[i].copy();
                kept.push(c);
                assert(env_view(kept@) =~= before.filter(pred).push(env_view(self.vars@)[i as int]));
            }
            i = i + 1;
        }
        assert(env_view(self.vars@).take(self.vars@.len() as int) =~= env_view(self.vars@));
        self.vars = kept;
    }

    /// All variables as (key, value) pairs, in order.
    pub fn list_all(&self) -> (r: Vec<(String, String)>)
        ensures
            r@.len() == self.view().len(),
            forall|i: int|
                0 <= i < r@.len() ==> #[trigger] r@[i].0@ == self.view()[i].0 && r@[i].1@
                    == self.view()[i].1,
    {
        let mut out: Vec<(String, String)> = Vec::new();
        let mut i: usize = 0;
        while i < self.vars.len()
            invariant
                i <= self.vars@.len(),
                out@.len() == i,
                forall|j: int|
                    0 <= j < i ==> #[trigger] out@[j].0@ == self.view()[j].0 && out@[j].1@
                        == self.view()[j].1,
            decreases self.vars@.len() - i,
        {
            out.push((self.vars[i].key.clone(), self.vars[i].val.clone()));
            i = i + 1;
        }
        out
    }
}

/// After `set(key, val)` the key reads back as `val`.
pub proof fn lemma_set_then_get(
    before: Seq<(Seq<char>, Seq<char>)>,
    after: Seq<(Seq<char>, Seq<char>)>,
    key: Seq<char>,
    val: Seq<char>,
)
    requires
        forall|i: int| #[trigger] is_first_key(before, key, i) ==> after == before.update(i, (key, val)),
        no_key(before, key) ==> after == before.push((key, val)),
    ensures
        lookup(after, key) == Some(val),
{
    assert forall|i: int| #[trigger] is_first_named(before, key, i) implies after == before.update(i, (key, val)) by {
        assert(is_first_key(before, key, i));
    }
    lemma_write_then_read(before, after, key, val);
}

/// After `unset(key)` the key reads as absent.
pub proof fn lemma_unset_then_get(before: Seq<(Seq<char>, Seq<char>)>, key: Seq<char>)
    ensures
        lookup(before.filter(|p: (Seq<char>, Seq<char>)| p.0 != key), key) is None,
{
    broadcast use vstd::seq_lib::group_filter_ensures;

    let after = before.filter(|p: (Seq<char>, Seq<char>)| p.0 != key);
    assert forall|j: int| 0 <= j < after.len() implies (#[trigger] after[j]).0 != key by {
    }
    lemma_lookup_none(after, key);
}

} // verus!

//! A typed settings store: string key paths to typed values, the part of
//! the configuration provider the pipeline's decisions read. The
//! surrounding program fills it from its configuration sources and hands it
//! in as plain values.

use vstd::prelude::*;

use crate::strutil::str_eq;

verus! {

/// A configuration value.
pub enum SettingValue {
    Str(String),
    Int(i64),
    Bool(bool),
    List(Vec<String>),
}

/// The abstract form of a configuration value.
pub enum SettingVal {
    Str(Seq<char>),
    Int(int),
    Bool(bool),
    List(Seq<Seq<char>>),
}

/// The abstract form of a configuration value.
pub open spec fn sval(v: SettingValue) -> SettingVal {
    match v {
        SettingValue::Str(s) => SettingVal::Str(s@),
        SettingValue::Int(i) => SettingVal::Int(i as int),
        SettingValue::Bool(b) => SettingVal::Bool(b),
        SettingValue::List(l) => SettingVal::List(l@.map_values(|s: String| s@)),
    }
}

/// The abstract contents of a sequence of setting entries: a map from key
/// to value, later entries overriding earlier ones.
pub closed spec fn settings_map_of(s: Seq<(String, SettingValue)>) -> Map<Seq<char>, SettingVal>
    decreases s.len(),
{
    if s.len() == 0 {
        Map::empty()
    } else {
        settings_map_of(s.drop_last()).insert(s.last().0@, sval(s.last().1))
    }
}

/// No two entries of the sequence share a key.
spec fn skeys_unique(s: Seq<(String, SettingValue)>) -> bool {
    forall|i: int, j: int|
        0 <= i < j < s.len() ==> (#[trigger] s[i]).0@ != (#[trigger] s[j]).0@
}

proof fn lemma_settings_map_contains(s: Seq<(String, SettingValue)>, k: Seq<char>)
    ensures
        settings_map_of(s).contains_key(k) <==> exists|i: int|
            0 <= i < s.len() && (#[trigger] s[i]).0@ == k,
    decreases s.len(),
{
    if s.len() > 0 {
        lemma_settings_map_contains(s.drop_last(), k);
        if settings_map_of(s).contains_key(k) {
            if s.last().0@ == k {
                assert((s[s.len() - 1]).0@ == k);
            } else {
                let i = choose|i: int|
                    0 <= i < s.drop_last().len() && (#[trigger] s.drop_last()[i]).0@ == k;
                assert((s[i]).0@ == k);
            }
        }
        if exists|i: int| 0 <= i < s.len() && (#[trigger] s[i]).0@ == k {
            let i = choose|i: int| 0 <= i < s.len() && (#[trigger] s[i]).0@ == k;
            if i < s.len() - 1 {
                assert((s.drop_last()[i]).0@ == k);
            }
        }
    }
}

proof fn lemma_settings_map_lookup(s: Seq<(String, SettingValue)>, i: int)
    requires
        skeys_unique(s),
        0 <= i < s.len(),
    ensures
        settings_map_of(s).contains_key(s[i].0@),
        settings_map_of(s)[s[i].0@] == sval(s[i].1),
    decreases s.len(),
{
    if i == s.len() - 1 {
    } else {
        assert(skeys_unique(s.drop_last()));
        assert(s.drop_last()[i] == s[i]);
        lemma_settings_map_lookup(s.drop_last(), i);
        assert(s[i].0@ != s.last().0@);
    }
}

proof fn lemma_settings_map_update(s: Seq<(String, SettingValue)>, i: int, kv: (String, SettingValue))
    requires
        skeys_unique(s),
        0 <= i < s.len(),
        s[i].0@ == kv.0@,
    ensures
        settings_map_of(s.update(i, kv)) == settings_map_of(s).insert(kv.0@, sval(kv.1)),
    decreases s.len(),
{
    let u = s.update(i, kv);
    if i == s.len() - 1 {
        assert(u.drop_last() =~= s.drop_last());
        assert(u.last() == kv);
        assert(settings_map_of(s.drop_last()).insert(kv.0@, sval(kv.1))
            =~= settings_map_of(s.drop_last()).insert(s.last().0@, sval(s.last().1)).insert(
            kv.0@,
            sval(kv.1),
        ));
    } else {
        assert(u.drop_last() =~= s.drop_last().update(i, kv));
        assert(u.last() == s.last());
        assert(skeys_unique(s.drop_last()));
        assert(s.drop_last()[i] == s[i]);
        lemma_settings_map_update(s.drop_last(), i, kv);
        assert(kv.0@ != s.last().0@);
        assert(settings_map_of(s.drop_last()).insert(kv.0@, sval(kv.1)).insert(
            s.last().0@,
            sval(s.last().1),
        ) =~= settings_map_of(s.drop_last()).insert(s.last().0@, sval(s.last().1)).insert(
            kv.0@,
            sval(kv.1),
        ));
    }
}

/// The settings store: string key paths to typed values, without duplicate
/// keys.
pub struct Settings {
    entries: Vec<(String, SettingValue)>,
}

impl View for Settings {
    type V = Map<Seq<char>, SettingVal>;

    closed spec fn view(&self) -> Map<Seq<char>, SettingVal> {
        settings_map_of(self.entries@)
    }
}

impl Settings {
    /// No two entries of the store share a key.
    pub closed spec fn wf(&self) -> bool {
        skeys_unique(self.entries@)
    }

    /// An empty settings store.
    pub fn new() -> (r: Self)
        ensures
            r@ == Map::<Seq<char>, SettingVal>::empty(),
            r.wf(),
    {
        Settings { entries: Vec::new() }
    }

    /// Set a key to a value; an earlier value for the same key is
    /// overridden.
    pub fn set(&mut self, key: &str, value: SettingValue)
        requires
            old(self).wf(),
        ensures
            final(self).wf(),
            final(self)@ == old(self)@.insert(key@, sval(value)),
    {
        let n = self.entries.len();
        let mut i: usize = 0;
        while i < n
            invariant
                n == self.entries@.len(),
                i <= n,
                old(self).wf(),
                self.entries@ == old(self).entries@,
                forall|k: int| 0 <= k < i ==> (#[trigger] self.entries@[k]).0@ != key@,
            decreases n - i,
        {
            if str_eq(self.entries[i].0.as_str(), key) {
                let kv = (key.to_owned(), value);
                proof {
                    lemma_settings_map_update(self.entries@, i as int, kv);
                    let u = self.entries@.update(i as int, kv);
                    assert forall|a: int, b: int| 0 <= a < b < u.len() implies (
                    #[trigger] u[a]).0@ != (#[trigger] u[b]).0@ by {
                        assert(self.entries@[a].0@ != self.entries@[b].0@);
                        assert(u[a].0@ == self.entries@[a].0@);
                        assert(u[b].0@ == self.entries@[b].0@);
                    }
                }
                self.entries.set(i, kv);
                return ;
            }
            i += 1;
        }
        let kv = (key.to_owned(), value);
        proof {
            assert(self.entries@.push(kv).drop_last() =~= self.entries@);
        }
        self.entries.push(kv);
    }

    /// The position of the entry for a key, if the key is present.
    fn find(&self, key: &str) -> (r: Option<usize>)
        requires
            self.wf(),
        ensures
            match r {
                Some(i) => i < self.entries@.len() && self.entries@[i as int].0@ == key@
                    && self@.contains_key(key@) && self@[key@] == sval(
                    self.entries@[i as int].1,
                ),
                None => !self@.contains_key(key@),
            },
    {
        let n = self.entries.len();
        let mut i: usize = 0;
        while i < n
            invariant
                n == self.entries@.len(),
                self.wf(),
                i <= n,
                forall|k: int| 0 <= k < i ==> (#[trigger] self.entries@[k]).0@ != key@,
            decreases n - i,
        {
            if str_eq(self.entries[i].0.as_str(), key) {
                proof {
                    lemma_settings_map_lookup(self.entries@, i as int);
                }
                return Some(i);
            }
            i += 1;
        }
        proof {
            lemma_settings_map_contains(self.entries@, key@);
        }
        None
    }

    /// The string value at a key, if the key holds one.
    pub fn get_str(&self, key: &str) -> (r: Option<&String>)
        requires
            self.wf(),
        ensures
            match r {
                Some(v) => self@.contains_key(key@) && self@[key@] == SettingVal::Str(v@),
                None => !self@.contains_key(key@) || !(self@[key@] is Str),
            },
    {
        match self.find(key) {
            Some(i) => match &self.entries[i].1 {
                SettingValue::Str(s) => Some(s),
                _ => None,
            },
            None => None,
        }
    }

    /// The integer value at a key, if the key holds one.
    pub fn get_int(&self, key: &str) -> (r: Option<i64>)
        requires
            self.wf(),
        ensures
            match r {
                Some(v) => self@.contains_key(key@) && self@[key@] == SettingVal::Int(v as int),
                None => !self@.contains_key(key@) || !(self@[key@] is Int),
            },
    {
        match self.find(key) {
            Some(i) => match &self.entries[i].1 {
                SettingValue::Int(v) => Some(*v),
                _ => None,
            },
            None => None,
        }
    }

    /// The boolean value at a key, if the key holds one.
    pub fn get_bool(&self, key: &str) -> (r: Option<bool>)
        requires
            self.wf(),
        ensures
            match r {
                Some(v) => self@.contains_key(key@) && self@[key@] == SettingVal::Bool(v),
                None => !self@.contains_key(key@) || !(self@[key@] is Bool),
            },
    {
        match self.find(key) {
            Some(i) => match &self.entries[i].1 {
                SettingValue::Bool(v) => Some(*v),
                _ => None,
            },
            None => None,
        }
    }

    /// The string-list value at a key, if the key holds one.
    pub fn get_list(&self, key: &str) -> (r: Option<&Vec<String>>)
        requires
            self.wf(),
        ensures
            match r {
                Some(v) => self@.contains_key(key@) && self@[key@] == SettingVal::List(
                    v@.map_values(|s: String| s@),
                ),
                None => !self@.contains_key(key@) || !(self@[key@] is List),
            },
    {
        match self.find(key) {
            Some(i) => match &self.entries[i].1 {
                SettingValue::List(v) => Some(v),
                _ => None,
            },
            None => None,
        }
    }
}

/// Whether performance reporting is switched on: the value of
/// `performance.enabled`, absent or non-boolean meaning off.
pub open spec fn performance_enabled(m: Map<Seq<char>, SettingVal>) -> bool {
    match m.contains_key("performance.enabled"@) {
        true => m["performance.enabled"@] matches SettingVal::Bool(b) && b,
        false => false,
    }
}

/// Whether performance reporting is enabled in the settings.
pub fn check_settings(settings: &Settings) -> (r: bool)
    requires
        settings.wf(),
    ensures
        r == performance_enabled(settings@),
{
    match settings.get_bool("performance.enabled") {
        Some(enabled) => enabled,
        None => false,
    }
}

} // verus!

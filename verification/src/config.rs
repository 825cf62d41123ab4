//! Connection settings and the paths derived from them.

use vstd::prelude::*;
use crate::text::{chars_of, string_of, push_str, push_chars};

verus! {

/// Miniserver connection settings.
#[derive(Debug, Clone)]
pub struct Config {
    pub host: String,
    pub user: String,
    pub pass: String,
    /// Miniserver serial number (empty when unknown).
    pub serial: String,
    /// Directory holding this configuration's cache, token and scenes
    /// (empty: the current directory).
    pub data_dir: String,
    /// Short names for controls, each mapped to a control UUID.
    pub aliases: Vec<(String, String)>,
}

impl Default for Config {
    fn default() -> (c: Self)
        ensures
            c.host@ == Seq::<char>::empty(),
            c.user@ == Seq::<char>::empty(),
            c.pass@ == Seq::<char>::empty(),
            c.serial@ == Seq::<char>::empty(),
            c.data_dir@ == Seq::<char>::empty(),
            c.aliases@.len() == 0,
    {
        Config {
            host: String::new(),
            user: String::new(),
            pass: String::new(),
            serial: String::new(),
            data_dir: String::new(),
            aliases: Vec::new(),
        }
    }
}

/// `base` joined with the relative path `seg`, as `Path::join` does with `/`
/// separators: `seg` alone when `base` is empty, no doubled separator when
/// `base` already ends in one.
pub open spec fn path_join(base: Seq<char>, seg: Seq<char>) -> Seq<char> {
    if base.len() == 0 {
        seg
    } else if base.last() == '/' {
        base + seg
    } else {
        base + seq!['/'] + seg
    }
}

/// Joins a relative path segment onto a directory path.
pub fn join_path(base: &str, seg: &str) -> (p: String)
    ensures
        p@ == path_join(base@, seg@),
{
    let b = chars_of(base);
    let mut v: Vec<char> = Vec::new();
    if b.len() > 0 {
        push_chars(&mut v, &b);
        if b[b.len() - 1] != '/' {
            v.push('/');
        }
    }
    push_str(&mut v, seg);
    string_of(&v)
}

/// The first alias entry named `name`, if any.
pub open spec fn alias_target(aliases: Seq<(String, String)>, name: Seq<char>) -> Option<Seq<char>>
    decreases aliases.len(),
{
    if aliases.len() == 0 {
        None
    } else if aliases[0].0@ == name {
        Some(aliases[0].1@)
    } else {
        alias_target(aliases.drop_first(), name)
    }
}

impl Config {
    /// `config.yaml` inside `dir`.
    pub fn path(dir: &str) -> (p: String)
        ensures
            p@ == path_join(dir@, "config.yaml"@),
    {
        join_path(dir, "config.yaml")
    }

    /// The scenes directory of this configuration: `scenes` under `data_dir`.
    pub fn scenes_dir(&self) -> (p: String)
        ensures
            p@ == path_join(self.data_dir@, "scenes"@),
    {
        join_path(self.data_dir.as_str(), "scenes")
    }

    /// The UUID an alias stands for.
    pub fn alias(&self, name: &str) -> (r: Option<String>)
        ensures
            match r {
                Some(u) => alias_target(self.aliases@, name@) == Some(u@),
                None => alias_target(self.aliases@, name@) is None,
            },
    {
        let n = self.aliases.len();
        let mut i: usize = 0;
        assert(self.aliases@.skip(0) == self.aliases@);
        while i < n
            invariant
                n == self.aliases@.len(),
                i <= n,
                alias_target(self.aliases@, name@) == alias_target(self.aliases@.skip(i as int), name@),
            decreases n - i,
        {
            assert(self.aliases@.skip(i as int).drop_first() == self.aliases@.skip(i + 1));
            let key = chars_of(self.aliases[i].0.as_str());
            let want = chars_of(name);
            if chars_equal(&key, &want) {
                assert(self.aliases@.skip(i as int)[0] == self.aliases@[i as int]);
                return Some(self.aliases[i].1.clone());
            }
            i = i + 1;
        }
        None
    }
}

/// Whether the characters `v` spell `w`.
pub fn spells(v: &Vec<char>, w: &str) -> (b: bool)
    ensures
        b == (v@ == w@),
{
    let x = chars_of(w);
    chars_equal(v, &x)
}

/// Equality of character sequences.
pub fn chars_equal(a: &Vec<char>, b: &Vec<char>) -> (r: bool)
    ensures
        r == (a@ == b@),
{
    if a.len() != b.len() {
        return false;
    }
    let n = a.len();
    let mut i: usize = 0;
    while i < n
        invariant
            n == a@.len(),
            n == b@.len(),
            i <= n,
            forall|j: int| 0 <= j < i ==> a@[j] == b@[j],
        decreases n - i,
    {
        if a[i] != b[i] {
            return false;
        }
        i = i + 1;
    }
    assert(a@ =~= b@);
    true
}

} // verus!

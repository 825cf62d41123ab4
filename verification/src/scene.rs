//! Scene definitions: named sequences of commands kept as YAML files in a
//! configuration's scenes directory.

use vstd::prelude::*;
use crate::config::{Config, path_join, join_path};
use crate::sort::{stable_sort_by_key, is_stable_sort, keyed_view, stable_sort_witness, sorted_by_key};
use crate::text::{views_of, chars_of, push_str, string_of, sub_chars, last_index_of, lemma_last_index_of, rfind_char};

verus! {

/// One step of a scene: a control (name or UUID), the command to send it,
/// and how long to wait afterwards.
#[derive(Debug)]
pub struct SceneStep {
    pub control: String,
    pub cmd: String,
    pub delay_ms: u64,
}

/// A scene: an optional display name and description, and its steps.
#[derive(Debug)]
pub struct Scene {
    pub name: Option<String>,
    pub description: Option<String>,
    pub steps: Vec<SceneStep>,
}

/// The stem of a file name whose extension is `yaml` (as `Path::extension`
/// and `Path::file_stem` split it: at the last `.`, unless that `.` opens
/// the name).
pub open spec fn yaml_stem(f: Seq<char>) -> Option<Seq<char>> {
    match last_index_of(f, '.') {
        Some(i) => if i > 0 && f.subrange(i + 1, f.len() as int) == "yaml"@ {
            Some(f.subrange(0, i))
        } else {
            None
        },
        None => None,
    }
}

/// The scene names among these file names, in order.
pub open spec fn scene_names(files: Seq<String>) -> Seq<Seq<char>>
    decreases files.len(),
{
    if files.len() == 0 {
        Seq::empty()
    } else {
        let rest = scene_names(files.drop_last());
        match yaml_stem(files.last()@) {
            Some(stem) => rest.push(stem),
            None => rest,
        }
    }
}

/// Names keyed by themselves.
pub open spec fn self_keyed(s: Seq<Seq<char>>) -> Seq<(Seq<char>, Seq<char>)> {
    s.map_values(|n: Seq<char>| (n, n))
}

/// The scene name a file name stands for, if it is a `.yaml` file.
pub fn scene_name_of(file_name: &str) -> (r: Option<String>)
    ensures
        match r {
            Some(n) => yaml_stem(file_name@) == Some(n@),
            None => yaml_stem(file_name@) is None,
        },
{
    let v = chars_of(file_name);
    let vlen = v.len();
    proof {
        lemma_last_index_of(v@, '.');
    }
    match rfind_char(&v, '.') {
        Some(i) => {
            if i == 0 {
                return None;
            }
            let ext = sub_chars(&v, i + 1, v.len());
            let want = chars_of("yaml");
            if crate::config::chars_equal(&ext, &want) {
                let stem = sub_chars(&v, 0, i);
                Some(string_of(&stem))
            } else {
                None
            }
        },
        None => None,
    }
}

impl Scene {
    /// The scenes directory of a configuration.
    pub fn scenes_dir_for(cfg: &Config) -> (p: String)
        ensures
            p@ == path_join(cfg.data_dir@, "scenes"@),
    {
        cfg.scenes_dir()
    }

    /// The file a scene of this name is read from: `<name>.yaml` in `dir`.
    pub fn path_in(name: &str, dir: &str) -> (p: String)
        ensures
            p@ == path_join(dir@, name@ + ".yaml"@),
    {
        let mut f: Vec<char> = Vec::new();
        push_str(&mut f, name);
        push_str(&mut f, ".yaml");
        let file = string_of(&f);
        join_path(dir, file.as_str())
    }

    /// The file a scene of this name is read from, for a configuration.
    pub fn path_with_config(name: &str, cfg: &Config) -> (p: String)
        ensures
            p@ == path_join(path_join(cfg.data_dir@, "scenes"@), name@ + ".yaml"@),
    {
        let dir = Self::scenes_dir_for(cfg);
        Self::path_in(name, dir.as_str())
    }

    /// The template a new scene file starts from.
    pub open spec fn template(name: Seq<char>) -> Seq<char> {
        "name: \""@ + name + "\"\ndescription: \"Describe your scene\"\nsteps:\n  - control: \"Control Name or UUID\"\n    cmd: \"on\"\n  - control: \"Another Control\"\n    cmd: \"off\"\n    delay_ms: 500  # optional delay after this step\n"@
    }

    /// Renders `template`.
    pub fn template_text(name: &str) -> (t: String)
        ensures
            t@ == Self::template(name@),
    {
        let mut v: Vec<char> = Vec::new();
        push_str(&mut v, "name: \"");
        push_str(&mut v, name);
        push_str(&mut v, "\"\ndescription: \"Describe your scene\"\nsteps:\n  - control: \"Control Name or UUID\"\n    cmd: \"on\"\n  - control: \"Another Control\"\n    cmd: \"off\"\n    delay_ms: 500  # optional delay after this step\n");
        string_of(&v)
    }

    /// The message for a scene whose file cannot be read.
    pub fn not_found_message(name: &str) -> (m: String)
        ensures
            m@ == "Scene '"@ + name@ + "' not found"@,
    {
        let mut v: Vec<char> = Vec::new();
        push_str(&mut v, "Scene '");
        push_str(&mut v, name);
        push_str(&mut v, "' not found");
        string_of(&v)
    }

    /// The scene names among a directory's file names: the stems of the
    /// `.yaml` files, sorted.
    pub fn list_from(file_names: &Vec<String>) -> (r: Vec<String>)
        ensures
            self_keyed(views_of(r@)) == sorted_by_key(self_keyed(scene_names(file_names@))),
            is_stable_sort(self_keyed(views_of(r@)), self_keyed(scene_names(file_names@))),
    {
        let n = file_names.len();
        let mut keyed: Vec<(Vec<char>, String)> = Vec::new();
        let mut i: usize = 0;
        while i < n
            invariant
                n == file_names@.len(),
                i <= n,
                keyed_view(keyed@) == self_keyed(scene_names(file_names@.take(i as int))),
            decreases n - i,
        {
            assert(file_names@.take(i + 1).drop_last() == file_names@.take(i as int));
            assert(file_names@.take(i + 1).last() == file_names@[i as int]);
            match scene_name_of(file_names[i].as_str()) {
                Some(stem) => {
                    let key = chars_of(stem.as_str());
                    let ghost before = keyed_view(keyed@);
                    keyed.push((key, stem));
                    let ghost names = scene_names(file_names@.take(i as int));
                    assert(scene_names(file_names@.take(i + 1)) == names.push(stem@));
                    assert(keyed_view(keyed@) =~= before.push((stem@, stem@)));
                    assert(self_keyed(names.push(stem@)) =~= self_keyed(names).push((stem@, stem@)));
                },
                None => {},
            }
            i = i + 1;
        }
        assert(file_names@.take(n as int) == file_names@);
        proof {
            let names = scene_names(file_names@);
            assert forall|k: int| 0 <= k < keyed@.len() implies (#[trigger] keyed_view(keyed@)[k]).0 == keyed_view(keyed@)[k].1 by {
                assert(keyed_view(keyed@)[k] == self_keyed(names)[k]);
            }
        }
        sort_keyed_texts(keyed)
    }
}

fn sort_keyed_texts(keyed: Vec<(Vec<char>, String)>) -> (out: Vec<String>)
    requires
        forall|k: int| 0 <= k < keyed@.len() ==> (#[trigger] keyed_view(keyed@)[k]).0 == keyed_view(keyed@)[k].1,
    ensures
        self_keyed(views_of(out@)) == sorted_by_key(keyed_view(keyed@)),
        is_stable_sort(self_keyed(views_of(out@)), keyed_view(keyed@)),
{
    let ghost src = keyed_view(keyed@);
    let sorted = stable_sort_by_key(keyed);
    let ghost sv = keyed_view(sorted@);
    proof {
        let p = choose|p: Seq<int>| stable_sort_witness(sv, src, p);
        assert forall|k: int| 0 <= k < sv.len() implies (#[trigger] sv[k]).0 == sv[k].1 by {
            assert(sv[k] == src[p[k]]);
        }
    }
    let mut out: Vec<String> = Vec::new();
    let mut rest = sorted;
    let ghost mut j: int = 0;
    while rest.len() > 0
        invariant
            0 <= j <= sv.len(),
            keyed_view(rest@) == sv.skip(j),
            self_keyed(views_of(out@)) == sv.take(j),
            forall|k: int| 0 <= k < sv.len() ==> (#[trigger] sv[k]).0 == sv[k].1,
        decreases rest@.len(),
    {
        let ghost old_rest = rest@;
        assert(keyed_view(old_rest).len() == old_rest.len());
        let e = rest.remove(0);
        assert(keyed_view(old_rest)[0] == sv[j]);
        assert forall|k: int| 0 <= k < rest@.len() implies keyed_view(rest@)[k] == sv.skip(j + 1)[k] by {
            assert(rest@[k] == old_rest[k + 1]);
            assert(keyed_view(old_rest)[k + 1] == sv.skip(j)[k + 1]);
        }
        assert(keyed_view(rest@) =~= sv.skip(j + 1));
        let ghost before = views_of(out@);
        out.push(e.1);
        proof {
            assert(views_of(out@) =~= before.push(sv[j].1));
            assert(sv.take(j + 1) =~= sv.take(j).push(sv[j]));
            assert(self_keyed(views_of(out@)) =~= sv.take(j + 1));
            j = j + 1;
        }
    }
    assert(sv.take(j) =~= sv);
    out
}

/// Sorts texts (as `Vec::sort` on strings orders them).
pub fn sort_texts(v: Vec<String>) -> (r: Vec<String>)
    ensures
        self_keyed(views_of(r@)) == sorted_by_key(self_keyed(views_of(v@))),
        is_stable_sort(self_keyed(views_of(r@)), self_keyed(views_of(v@))),
{
    let ghost vs = views_of(v@);
    let mut keyed: Vec<(Vec<char>, String)> = Vec::new();
    let mut rest = v;
    let ghost mut k: int = 0;
    while rest.len() > 0
        invariant
            0 <= k <= vs.len(),
            views_of(rest@) == vs.skip(k),
            keyed_view(keyed@) == self_keyed(vs.take(k)),
            keyed@.len() == k,
        decreases rest@.len(),
    {
        let ghost old_rest = rest@;
        assert(views_of(old_rest).len() == old_rest.len());
        let t = rest.remove(0);
        assert(views_of(old_rest)[0] == vs[k]);
        assert forall|i: int| 0 <= i < rest@.len() implies views_of(rest@)[i] == vs.skip(k + 1)[i] by {
            assert(rest@[i] == old_rest[i + 1]);
            assert(views_of(old_rest)[i + 1] == vs.skip(k)[i + 1]);
        }
        assert(views_of(rest@) =~= vs.skip(k + 1));
        let key = chars_of(t.as_str());
        let ghost before = keyed_view(keyed@);
        keyed.push((key, t));
        proof {
            assert(keyed_view(keyed@) =~= before.push((vs[k], vs[k])));
            assert(vs.take(k + 1) =~= vs.take(k).push(vs[k]));
            assert(self_keyed(vs.take(k + 1)) =~= self_keyed(vs.take(k)).push((vs[k], vs[k])));
            k = k + 1;
        }
    }
    assert(vs.take(k) =~= vs);
    proof {
        assert forall|m: int| 0 <= m < keyed@.len() implies (#[trigger] keyed_view(keyed@)[m]).0 == keyed_view(keyed@)[m].1 by {
            assert(keyed_view(keyed@)[m] == self_keyed(vs)[m]);
        }
    }
    sort_keyed_texts(keyed)
}

} // verus!

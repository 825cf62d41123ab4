//! Controls of the Miniserver's structure file and how a name, alias or
//! UUID given on the command line resolves to one of them.

use vstd::prelude::*;
use crate::config::{Config, alias_target, chars_equal};
use crate::sort::{stable_sort_by_key, is_stable_sort, keyed_view, sorted_by_key, law_filter_commutes_with_sort};
use crate::text::{chars_of, contains_ignore_case, contains_seq, lowercase_of, push_str, push_chars, string_of, trimmed, trim_front, trim_back, is_white_space, trim_range, sub_chars, last_index_of, lemma_last_index_of, rfind_char, has_char};

verus! {

/// A control as listed: its name, UUID, type and room name.
#[derive(Debug, Clone)]
pub struct Control {
    pub name: String,
    pub uuid: String,
    pub typ: String,
    pub room: Option<String>,
}

/// A control, viewed.
pub ghost struct ControlModel {
    pub name: Seq<char>,
    pub uuid: Seq<char>,
    pub typ: Seq<char>,
    pub room: Option<Seq<char>>,
}

/// An optional text, viewed.
pub open spec fn opt_view(o: Option<String>) -> Option<Seq<char>> {
    match o {
        Some(s) => Some(s@),
        None => None,
    }
}

/// An optional text slice, viewed.
pub open spec fn opt_str_view(o: Option<&str>) -> Option<Seq<char>> {
    match o {
        Some(s) => Some(s@),
        None => None,
    }
}

impl View for Control {
    type V = ControlModel;

    open spec fn view(&self) -> ControlModel {
        ControlModel { name: self.name@, uuid: self.uuid@, typ: self.typ@, room: opt_view(self.room) }
    }
}

impl Control {
    /// A copy of this control.
    pub fn duplicate(&self) -> (c: Control)
        ensures
            c@ == self@,
    {
        Control {
            name: self.name.clone(),
            uuid: self.uuid.clone(),
            typ: self.typ.clone(),
            room: clone_opt(&self.room),
        }
    }
}

/// A copy of an optional text.
pub fn clone_opt(o: &Option<String>) -> (r: Option<String>)
    ensures
        opt_view(r) == opt_view(*o),
{
    match o {
        Some(s) => Some(s.clone()),
        None => None,
    }
}

/// A room entry of the structure file: its UUID and its name, where the
/// entry has one.
#[derive(Debug)]
pub struct StructureRoom {
    pub uuid: String,
    pub name: Option<String>,
}

/// A control entry of the structure file: its UUID and the `name`, `type`
/// and `room` fields where they are present as strings.
#[derive(Debug)]
pub struct StructureControl {
    pub uuid: String,
    pub name: Option<String>,
    pub typ: Option<String>,
    pub room: Option<String>,
    /// The control's states: each state's name and the UUID it is read by.
    pub states: Vec<(String, String)>,
}

/// The parts of the structure file (`LoxApp3.json`) that listing and
/// resolution read: its rooms and its controls, in the file's order.
#[derive(Debug)]
pub struct Structure {
    pub rooms: Vec<StructureRoom>,
    pub controls: Vec<StructureControl>,
}

/// The name of the room with this UUID (the first named entry with it).
pub open spec fn room_name_in(rooms: Seq<StructureRoom>, uuid: Seq<char>) -> Option<Seq<char>>
    decreases rooms.len(),
{
    if rooms.len() == 0 {
        None
    } else if rooms[0].uuid@ == uuid && rooms[0].name is Some {
        Some(rooms[0].name->0@)
    } else {
        room_name_in(rooms.drop_first(), uuid)
    }
}

/// A field's text, `?` where it is missing.
pub open spec fn or_question(o: Option<String>) -> Seq<char> {
    match o {
        Some(s) => s@,
        None => "?"@,
    }
}

/// A room name, the empty text where there is none.
pub open spec fn or_empty(o: Option<Seq<char>>) -> Seq<char> {
    match o {
        Some(s) => s,
        None => Seq::empty(),
    }
}

/// The control a structure entry describes.
pub open spec fn control_model(rooms: Seq<StructureRoom>, c: StructureControl) -> ControlModel {
    ControlModel {
        name: or_question(c.name),
        uuid: c.uuid@,
        typ: or_question(c.typ),
        room: room_name_in(rooms, match c.room { Some(r) => r@, None => Seq::empty() }),
    }
}

/// The type filter and room filter of a listing: each, where given, must
/// occur (case-insensitively) in the control's type, resp. room name.
pub open spec fn passes_filters(m: ControlModel, tf: Option<Seq<char>>, rf: Option<Seq<char>>) -> bool {
    &&& (tf matches Some(t) ==> contains_seq(lowercase_of(m.typ), lowercase_of(t)))
    &&& (rf matches Some(r) ==> contains_seq(lowercase_of(or_empty(m.room)), lowercase_of(r)))
}

/// The controls of `controls` that pass the filters, in the file's order.
pub open spec fn collected(rooms: Seq<StructureRoom>, controls: Seq<StructureControl>, tf: Option<Seq<char>>, rf: Option<Seq<char>>) -> Seq<ControlModel>
    decreases controls.len(),
{
    if controls.len() == 0 {
        Seq::empty()
    } else {
        let rest = collected(rooms, controls.drop_last(), tf, rf);
        let m = control_model(rooms, controls.last());
        if passes_filters(m, tf, rf) { rest.push(m) } else { rest }
    }
}

/// Controls viewed.
pub open spec fn models(v: Seq<Control>) -> Seq<ControlModel> {
    v.map_values(|c: Control| c@)
}

/// Controls keyed by name.
pub open spec fn by_name(s: Seq<ControlModel>) -> Seq<(Seq<char>, ControlModel)> {
    s.map_values(|m: ControlModel| (m.name, m))
}

fn room_name_of(rooms: &Vec<StructureRoom>, uuid: &str) -> (r: Option<String>)
    ensures
        opt_view(r) == room_name_in(rooms@, uuid@),
{
    let n = rooms.len();
    let mut i: usize = 0;
    assert(rooms@.skip(0) == rooms@);
    while i < n
        invariant
            n == rooms@.len(),
            i <= n,
            room_name_in(rooms@, uuid@) == room_name_in(rooms@.skip(i as int), uuid@),
        decreases n - i,
    {
        assert(rooms@.skip(i as int).drop_first() == rooms@.skip(i + 1));
        assert(rooms@.skip(i as int)[0] == rooms@[i as int]);
        let a = chars_of(rooms[i].uuid.as_str());
        let b = chars_of(uuid);
        if chars_equal(&a, &b) {
            match &rooms[i].name {
                Some(nm) => {
                    return Some(nm.clone());
                },
                None => {},
            }
        }
        i = i + 1;
    }
    None
}

fn text_or_question(o: &Option<String>) -> (s: String)
    ensures
        s@ == or_question(*o),
{
    match o {
        Some(s) => s.clone(),
        None => "?".to_owned(),
    }
}

/// Whether a control passes the type and room filters.
pub fn control_passes(c: &Control, type_filter: Option<&str>, room_filter: Option<&str>) -> (b: bool)
    ensures
        b == passes_filters(c@, opt_str_view(type_filter), opt_str_view(room_filter)),
{
    let type_ok = match type_filter {
        Some(tf) => contains_ignore_case(c.typ.as_str(), tf),
        None => true,
    };
    let room_ok = match room_filter {
        Some(rf) => match &c.room {
            Some(r) => contains_ignore_case(r.as_str(), rf),
            None => contains_ignore_case("", rf),
        },
        None => true,
    };
    proof {
        reveal_strlit("");
        if c.room is None {
            assert(or_empty(c@.room) == ""@);
        }
    }
    type_ok && room_ok
}

/// The controls of the structure that pass the filters, in the file's order.
pub fn collect_controls(structure: &Structure, type_filter: Option<&str>, room_filter: Option<&str>) -> (r: Vec<Control>)
    ensures
        models(r@) == collected(structure.rooms@, structure.controls@, opt_str_view(type_filter), opt_str_view(room_filter)),
{
    let ghost tf = opt_str_view(type_filter);
    let ghost rf = opt_str_view(room_filter);
    let n = structure.controls.len();
    let mut out: Vec<Control> = Vec::new();
    let mut i: usize = 0;
    while i < n
        invariant
            n == structure.controls@.len(),
            i <= n,
            tf == opt_str_view(type_filter),
            rf == opt_str_view(room_filter),
            models(out@) == collected(structure.rooms@, structure.controls@.take(i as int), tf, rf),
        decreases n - i,
    {
        let sc = &structure.controls[i];
        let room_uuid: String = match &sc.room {
            Some(r) => r.clone(),
            None => String::new(),
        };
        let c = Control {
            name: text_or_question(&sc.name),
            uuid: sc.uuid.clone(),
            typ: text_or_question(&sc.typ),
            room: room_name_of(&structure.rooms, room_uuid.as_str()),
        };
        assert(c@ == control_model(structure.rooms@, structure.controls@[i as int]));
        assert(structure.controls@.take(i + 1).drop_last() == structure.controls@.take(i as int));
        assert(structure.controls@.take(i + 1).last() == structure.controls@[i as int]);
        if control_passes(&c, type_filter, room_filter) {
            let ghost before = out@;
            out.push(c);
            assert(models(out@) =~= models(before).push(c@));
        }
        i = i + 1;
    }
    assert(structure.controls@.take(n as int) == structure.controls@);
    out
}

/// Sorts controls by name, keeping file order among equal names.
pub fn sort_by_name(v: Vec<Control>) -> (r: Vec<Control>)
    ensures
        by_name(models(r@)) == sorted_by_key(by_name(models(v@))),
        is_stable_sort(by_name(models(r@)), by_name(models(v@))),
{
    let mut keyed: Vec<(Vec<char>, Control)> = Vec::new();
    let mut rest = v;
    let ghost vs = models(rest@);
    let ghost mut k: int = 0;
    while rest.len() > 0
        invariant
            0 <= k <= vs.len(),
            models(rest@) == vs.skip(k),
            keyed_view(keyed@) == by_name(vs.take(k)),
        decreases rest@.len(),
    {
        let ghost old_rest = rest@;
        assert(models(old_rest).len() == old_rest.len());
        let c = rest.remove(0);
        assert(models(old_rest)[0] == vs[k]);
        assert forall|i: int| 0 <= i < rest@.len() implies models(rest@)[i] == vs.skip(k + 1)[i] by {
            assert(rest@[i] == old_rest[i + 1]);
            assert(models(old_rest)[i + 1] == vs.skip(k)[i + 1]);
        }
        assert(models(rest@) =~= vs.skip(k + 1));
        let key = chars_of(c.name.as_str());
        assert(c@ == vs[k]);
        let ghost before = keyed_view(keyed@);
        keyed.push((key, c));
        proof {
            assert(keyed_view(keyed@) =~= before.push((vs[k].name, vs[k])));
            assert(vs.take(k + 1) =~= vs.take(k).push(vs[k]));
            assert(keyed_view(keyed@) =~= by_name(vs.take(k + 1)));
            k = k + 1;
        }
    }
    assert(vs.take(k) =~= vs);
    let sorted = stable_sort_by_key(keyed);
    let ghost sv = keyed_view(sorted@);
    proof {
        let p = choose|p: Seq<int>| crate::sort::stable_sort_witness(sv, by_name(vs), p);
        assert forall|i: int| 0 <= i < sv.len() implies (#[trigger] sv[i]).0 == sv[i].1.name by {
            assert(sv[i] == by_name(vs)[p[i]]);
        }
    }
    let mut out: Vec<Control> = Vec::new();
    let mut rest2 = sorted;
    let ghost mut j: int = 0;
    while rest2.len() > 0
        invariant
            0 <= j <= sv.len(),
            keyed_view(rest2@) == sv.skip(j),
            by_name(models(out@)) == sv.take(j),
            forall|i: int| 0 <= i < sv.len() ==> (#[trigger] sv[i]).0 == sv[i].1.name,
        decreases rest2@.len(),
    {
        let ghost old_rest = rest2@;
        assert(keyed_view(old_rest).len() == old_rest.len());
        let e = rest2.remove(0);
        assert(keyed_view(old_rest)[0] == sv[j]);
        assert forall|i: int| 0 <= i < rest2@.len() implies keyed_view(rest2@)[i] == sv.skip(j + 1)[i] by {
            assert(rest2@[i] == old_rest[i + 1]);
            assert(keyed_view(old_rest)[i + 1] == sv.skip(j)[i + 1]);
        }
        assert(keyed_view(rest2@) =~= sv.skip(j + 1));
        let ghost before = models(out@);
        assert(sv[j] == (e.0@, e.1@));
        out.push(e.1);
        proof {
            assert(models(out@) =~= before.push(sv[j].1));
            assert(sv.take(j + 1) =~= sv.take(j).push(sv[j]));
            assert(by_name(models(out@)) =~= sv.take(j + 1));
            j = j + 1;
        }
    }
    assert(sv.take(j) =~= sv);
    out
}

/// The controls of the structure that pass the filters, sorted by name
/// (controls with equal names in the file's order).
pub fn list_controls_in(structure: &Structure, type_filter: Option<&str>, room_filter: Option<&str>) -> (r: Vec<Control>)
    ensures
        by_name(models(r@)) == listing(*structure, opt_str_view(type_filter), opt_str_view(room_filter)),
        is_stable_sort(
            by_name(models(r@)),
            by_name(collected(structure.rooms@, structure.controls@, opt_str_view(type_filter), opt_str_view(room_filter))),
        ),
{
    let c = collect_controls(structure, type_filter, room_filter);
    sort_by_name(c)
}

/// The rows of `lox ls` with the filters: the controls that pass them,
/// sorted by name, controls of equal name in the file's order.
pub open spec fn listing(s: Structure, tf: Option<Seq<char>>, rf: Option<Seq<char>>) -> Seq<(Seq<char>, ControlModel)> {
    sorted_by_key(by_name(collected(s.rooms@, s.controls@, tf, rf)))
}

/// A listing row passes the filters.
pub open spec fn row_passes(tf: Option<Seq<char>>, rf: Option<Seq<char>>) -> spec_fn((Seq<char>, ControlModel)) -> bool {
    |e: (Seq<char>, ControlModel)| passes_filters(e.1, tf, rf)
}

proof fn lemma_collected_filtered(rooms: Seq<StructureRoom>, controls: Seq<StructureControl>, tf: Option<Seq<char>>, rf: Option<Seq<char>>)
    ensures
        by_name(collected(rooms, controls, tf, rf)) == by_name(collected(rooms, controls, None, None)).filter(row_passes(tf, rf)),
    decreases controls.len(),
{
    reveal(Seq::filter);
    if controls.len() > 0 {
        let rest = controls.drop_last();
        lemma_collected_filtered(rooms, rest, tf, rf);
        let m = control_model(rooms, controls.last());
        let all_rest = collected(rooms, rest, None, None);
        let q = by_name(all_rest.push(m));
        assert(q =~= by_name(all_rest).push((m.name, m)));
        assert(q.drop_last() =~= by_name(all_rest));
        let kept_rest = collected(rooms, rest, tf, rf);
        if passes_filters(m, tf, rf) {
            assert(by_name(kept_rest.push(m)) =~= by_name(kept_rest).push((m.name, m)));
        }
    }
}

/// Filtering a listing is filtering its rows: with a type or room filter,
/// `lox ls` shows exactly the rows of the unfiltered listing that pass the
/// filters, in the same order.
pub proof fn law_filtered_listing(s: Structure, tf: Option<Seq<char>>, rf: Option<Seq<char>>)
    ensures
        listing(s, tf, rf) == listing(s, None, None).filter(row_passes(tf, rf)),
{
    lemma_collected_filtered(s.rooms@, s.controls@, tf, rf);
    law_filter_commutes_with_sort(by_name(collected(s.rooms@, s.controls@, None, None)), row_passes(tf, rf));
}

/// Text taken for a UUID: it contains `-` and is longer than 20 bytes
/// (UTF-8).
pub open spec fn uuid_like(s: &str) -> bool {
    s@.contains('-') && s.len() > 20
}

/// Whether `s` is taken for a UUID rather than a name.
pub fn is_uuid(s: &str) -> (b: bool)
    ensures
        b == uuid_like(s),
{
    let v = chars_of(s);
    has_char(&v, '-') && s.len() > 20
}

/// A control's name and room against a name part and an optional room part.
pub open spec fn name_room_match(m: ControlModel, name_part: Seq<char>, room: Option<Seq<char>>) -> bool {
    &&& contains_seq(lowercase_of(m.name), lowercase_of(name_part))
    &&& (room matches Some(r) ==> contains_seq(lowercase_of(or_empty(m.room)), lowercase_of(r)))
}

/// The controls of `s` whose name and room match, in order.
pub open spec fn matching(s: Seq<ControlModel>, name_part: Seq<char>, room: Option<Seq<char>>) -> Seq<ControlModel>
    decreases s.len(),
{
    if s.len() == 0 {
        Seq::empty()
    } else {
        let rest = matching(s.drop_last(), name_part, room);
        if name_room_match(s.last(), name_part, room) { rest.push(s.last()) } else { rest }
    }
}

/// The controls whose name contains `name_part` and, where a room is given,
/// whose room contains it (both case-insensitively), in order.
pub fn matching_controls(controls: &Vec<Control>, name_part: &str, room: Option<&str>) -> (r: Vec<Control>)
    ensures
        models(r@) == matching(models(controls@), name_part@, opt_str_view(room)),
{
    let n = controls.len();
    let mut out: Vec<Control> = Vec::new();
    let mut i: usize = 0;
    while i < n
        invariant
            n == controls@.len(),
            i <= n,
            models(out@) == matching(models(controls@.take(i as int)), name_part@, opt_str_view(room)),
        decreases n - i,
    {
        let c = &controls[i];
        assert(models(controls@.take(i + 1)).drop_last() =~= models(controls@.take(i as int)));
        assert(models(controls@.take(i + 1)).last() == c@);
        let name_ok = contains_ignore_case(c.name.as_str(), name_part);
        let room_ok = match room {
            Some(rf) => match &c.room {
                Some(r) => contains_ignore_case(r.as_str(), rf),
                None => contains_ignore_case("", rf),
            },
            None => true,
        };
        proof {
            reveal_strlit("");
            if c.room is None {
                assert(or_empty(c@.room) == ""@);
            }
        }
        let ghost prefix = models(controls@.take(i + 1));
        assert(prefix.len() > 0);
        assert((name_ok && room_ok) == name_room_match(c@, name_part@, opt_str_view(room)));
        if name_ok && room_ok {
            let ghost before = models(out@);
            out.push(c.duplicate());
            assert(models(out@) =~= before.push(c@));
        }
        assert(models(out@) == matching(prefix, name_part@, opt_str_view(room)));
        i = i + 1;
    }
    assert(controls@.take(n as int) == controls@);
    out
}

/// A query split into its name part and a trailing `[Room]` qualifier: when
/// the text ends with `]` and holds a `[`, the part before the last `[`
/// (trimmed) and the part between it and the final `]`; otherwise the whole
/// text and no room.
pub open spec fn split_qualifier(q: Seq<char>) -> (Seq<char>, Option<Seq<char>>) {
    match last_index_of(q, '[') {
        Some(i) => if q.len() > 0 && q.last() == ']' {
            (trimmed(q.subrange(0, i)), Some(q.subrange(i + 1, q.len() - 1)))
        } else {
            (q, None)
        },
        None => (q, None),
    }
}

/// Splits a query into name part and room qualifier.
pub fn split_room_qualifier(q: &str) -> (r: (String, Option<String>))
    ensures
        r.0@ == split_qualifier(q@).0,
        opt_view(r.1) == split_qualifier(q@).1,
{
    let v = chars_of(q);
    proof {
        lemma_last_index_of(v@, '[');
    }
    match rfind_char(&v, '[') {
        Some(i) => {
            if v.len() > 0 && v[v.len() - 1] == ']' {
                let name = trim_range(&v, 0, i);
                let room = sub_chars(&v, i + 1, v.len() - 1);
                (string_of(&name), Some(string_of(&room)))
            } else {
                (q.to_owned(), None)
            }
        },
        None => (q.to_owned(), None),
    }
}

/// Why a name, alias or UUID did not resolve to a control.
#[derive(Debug)]
pub enum ResolveError {
    /// The structure file has not been loaded into the client.
    StructureNotLoaded,
    /// No control's name (and room) matches.
    NoMatch { query: String },
    /// Several controls match a name given to be resolved; they are listed.
    Ambiguous { query: String, candidates: Vec<Control> },
    /// Several controls match a name given to be looked up; they are listed.
    AmbiguousControl { query: String, candidates: Vec<Control> },
    /// A UUID that no control of the structure has.
    UuidNotFound,
}

impl ResolveError {
    /// The error's message, as the command line prints it.
    pub open spec fn message(&self) -> Seq<char> {
        match self {
            ResolveError::StructureNotLoaded => "Structure not loaded"@,
            ResolveError::NoMatch { query } => "No control matching '"@ + query@ + "'"@,
            ResolveError::Ambiguous { query, candidates } =>
                "Ambiguous: '"@ + query@ + "'. Use [Room] qualifier or --room flag."@,
            ResolveError::AmbiguousControl { query, candidates } => "Ambiguous: '"@ + query@ + "'"@,
            ResolveError::UuidNotFound => "UUID not found"@,
        }
    }

    /// Renders the message.
    pub fn to_string(&self) -> (s: String)
        ensures
            s@ == self.message(),
    {
        let mut v: Vec<char> = Vec::new();
        match self {
            ResolveError::StructureNotLoaded => push_str(&mut v, "Structure not loaded"),
            ResolveError::NoMatch { query } => {
                push_str(&mut v, "No control matching '");
                push_str(&mut v, query.as_str());
                push_str(&mut v, "'");
            },
            ResolveError::Ambiguous { query, candidates } => {
                push_str(&mut v, "Ambiguous: '");
                push_str(&mut v, query.as_str());
                push_str(&mut v, "'. Use [Room] qualifier or --room flag.");
            },
            ResolveError::AmbiguousControl { query, candidates } => {
                push_str(&mut v, "Ambiguous: '");
                push_str(&mut v, query.as_str());
                push_str(&mut v, "'");
            },
            ResolveError::UuidNotFound => push_str(&mut v, "UUID not found"),
        }
        string_of(&v)
    }
}

/// A client's view of the Miniserver: its settings and, once fetched, the
/// structure file.
pub struct LoxClient {
    pub cfg: Config,
    pub structure: Option<Structure>,
}

/// All controls of a structure, in the file's order.
pub open spec fn all_controls(s: Structure) -> Seq<ControlModel> {
    collected(s.rooms@, s.controls@, None, None)
}

/// The first control of `s` with this UUID.
pub open spec fn first_with_uuid(s: Seq<ControlModel>, uuid: Seq<char>) -> Option<ControlModel>
    decreases s.len(),
{
    if s.len() == 0 {
        None
    } else if s[0].uuid == uuid {
        Some(s[0])
    } else {
        first_with_uuid(s.drop_first(), uuid)
    }
}

impl LoxClient {
    /// A client with these settings and no structure loaded yet.
    pub fn new(cfg: Config) -> (c: LoxClient)
        ensures
            c.cfg == cfg,
            c.structure is None,
    {
        LoxClient { cfg, structure: None }
    }

    /// Where the structure cache of a configuration lives:
    /// `cache/structure.json` under its data directory.
    pub fn cache_path(cfg: &Config) -> (p: String)
        ensures
            p@ == crate::config::path_join(crate::config::path_join(cfg.data_dir@, "cache"@), "structure.json"@),
    {
        let c = crate::config::join_path(cfg.data_dir.as_str(), "cache");
        crate::config::join_path(c.as_str(), "structure.json")
    }

    /// Configurations with different data directories (written without a
    /// trailing `/`) have different structure caches.
    pub proof fn law_cache_per_data_dir(cfg1: Config, cfg2: Config)
        requires
            cfg1.data_dir@ != cfg2.data_dir@,
            cfg1.data_dir@.len() > 0 ==> cfg1.data_dir@.last() != '/',
            cfg2.data_dir@.len() > 0 ==> cfg2.data_dir@.last() != '/',
        ensures
            crate::config::path_join(crate::config::path_join(cfg1.data_dir@, "cache"@), "structure.json"@)
                != crate::config::path_join(crate::config::path_join(cfg2.data_dir@, "cache"@), "structure.json"@),
    {
        reveal_strlit("cache");
        reveal_strlit("structure.json");
        let d1 = cfg1.data_dir@;
        let d2 = cfg2.data_dir@;
        let x1 = crate::config::path_join(d1, "cache"@);
        let x2 = crate::config::path_join(d2, "cache"@);
        assert(x1.last() == 'e');
        assert(x2.last() == 'e');
        let p1 = crate::config::path_join(x1, "structure.json"@);
        let p2 = crate::config::path_join(x2, "structure.json"@);
        assert(p1 == x1 + seq!['/'] + "structure.json"@);
        assert(p2 == x2 + seq!['/'] + "structure.json"@);
        assert(x1 == (if d1.len() == 0 { "cache"@ } else { d1 + seq!['/'] + "cache"@ }));
        assert(x2 == (if d2.len() == 0 { "cache"@ } else { d2 + seq!['/'] + "cache"@ }));
        if p1 == p2 {
            assert(p1.len() == x1.len() + 15);
            assert(p2.len() == x2.len() + 15);
            assert(x1.len() == x2.len());
            assert forall|k: int| 0 <= k < x1.len() implies x1[k] == x2[k] by {
                assert(p1[k] == x1[k]);
                assert(p2[k] == x2[k]);
            }
            assert(x1 =~= x2);
            if d1.len() > 0 && d2.len() > 0 {
                assert forall|k: int| 0 <= k < d1.len() implies d1[k] == d2[k] by {
                    assert(x1[k] == d1[k]);
                    assert(x2[k] == d2[k]);
                }
                assert(d1 =~= d2);
            } else if d1.len() == 0 && d2.len() == 0 {
                assert(d1 =~= d2);
            }
        }
    }

    /// The controls passing the filters, sorted by name; fails only when no
    /// structure is loaded.
    pub fn list_controls(&self, type_filter: Option<&str>, room_filter: Option<&str>) -> (r: Result<Vec<Control>, ResolveError>)
        ensures
            self.structure is None ==> r matches Err(ResolveError::StructureNotLoaded),
            self.structure matches Some(s) ==> r matches Ok(v)
                && by_name(models(v@)) == listing(s, opt_str_view(type_filter), opt_str_view(room_filter)),
    {
        match &self.structure {
            Some(s) => Ok(list_controls_in(s, type_filter, room_filter)),
            None => Err(ResolveError::StructureNotLoaded),
        }
    }

    /// `resolve_with_room` without a room filter.
    pub fn resolve(&self, name_or_uuid: &str) -> (r: Result<String, ResolveError>)
        ensures
            resolve_outcome(self, name_or_uuid@, uuid_like(name_or_uuid), None, r),
    {
        self.resolve_with_room(name_or_uuid, None)
    }

    /// The UUID a command-line argument stands for: the argument itself when
    /// it looks like a UUID, the target of an alias of that name, or else the
    /// one control whose name contains the name part (case-insensitively)
    /// and whose room contains the room given by a trailing `[Room]`
    /// qualifier or, failing one, by `room_filter`.
    pub fn resolve_with_room(&self, name_or_uuid: &str, room_filter: Option<&str>) -> (r: Result<String, ResolveError>)
        ensures
            resolve_outcome(self, name_or_uuid@, uuid_like(name_or_uuid), opt_str_view(room_filter), r),
    {
        if is_uuid(name_or_uuid) {
            return Ok(name_or_uuid.to_owned());
        }
        match self.cfg.alias(name_or_uuid) {
            Some(u) => {
                return Ok(u);
            },
            None => {},
        }
        let s = match &self.structure {
            Some(s) => s,
            None => {
                return Err(ResolveError::StructureNotLoaded);
            },
        };
        let (name_part, room_part) = split_room_qualifier(name_or_uuid);
        let effective: Option<&str> = match &room_part {
            Some(r) => Some(r.as_str()),
            None => room_filter,
        };
        let all = collect_controls(s, None, None);
        let matches = matching_controls(&all, name_part.as_str(), effective);
        if matches.len() == 0 {
            Err(ResolveError::NoMatch { query: name_or_uuid.to_owned() })
        } else if matches.len() == 1 {
            Ok(matches[0].uuid.clone())
        } else {
            Err(ResolveError::Ambiguous { query: name_or_uuid.to_owned(), candidates: sort_by_name(matches) })
        }
    }

    /// The control a command-line argument names: for a UUID-like argument
    /// the control with that UUID, otherwise the one control whose name
    /// contains the argument (case-insensitively).
    pub fn find_control(&self, name_or_uuid: &str) -> (r: Result<Control, ResolveError>)
        ensures
            find_outcome(self, name_or_uuid@, uuid_like(name_or_uuid), r),
    {
        let s = match &self.structure {
            Some(s) => s,
            None => {
                return Err(ResolveError::StructureNotLoaded);
            },
        };
        let all = collect_controls(s, None, None);
        if is_uuid(name_or_uuid) {
            let n = all.len();
            let want = chars_of(name_or_uuid);
            let mut i: usize = 0;
            assert(models(all@).skip(0) == models(all@));
            while i < n
                invariant
                    n == all@.len(),
                    i <= n,
                    want@ == name_or_uuid@,
                    self.structure == Some(*s),
                    models(all@) == all_controls(*s),
                    uuid_like(name_or_uuid),
                    first_with_uuid(models(all@), want@) == first_with_uuid(models(all@).skip(i as int), want@),
                decreases n - i,
            {
                assert(models(all@).skip(i as int).drop_first() =~= models(all@).skip(i + 1));
                assert(models(all@).skip(i as int)[0] == all@[i as int]@);
                let u = chars_of(all[i].uuid.as_str());
                if crate::config::chars_equal(&u, &want) {
                    return Ok(all[i].duplicate());
                }
                i = i + 1;
            }
            return Err(ResolveError::UuidNotFound);
        }
        let matches = matching_controls(&all, name_or_uuid, None);
        if matches.len() == 0 {
            Err(ResolveError::NoMatch { query: name_or_uuid.to_owned() })
        } else if matches.len() == 1 {
            Ok(matches[0].duplicate())
        } else {
            Err(ResolveError::AmbiguousControl { query: name_or_uuid.to_owned(), candidates: sort_by_name(matches) })
        }
    }
}

/// What `find_control` returns for `q` (UUID-like when `uuid`).
pub open spec fn find_outcome(c: &LoxClient, q: Seq<char>, uuid: bool, r: Result<Control, ResolveError>) -> bool {
    match c.structure {
        None => r matches Err(ResolveError::StructureNotLoaded),
        Some(s) => {
            let all = all_controls(s);
            if uuid {
                match first_with_uuid(all, q) {
                    Some(m) => r matches Ok(ctrl) && ctrl@ == m,
                    None => r matches Err(ResolveError::UuidNotFound),
                }
            } else {
                let ms = matching(all, q, None);
                if ms.len() == 0 {
                    r matches Err(ResolveError::NoMatch { query }) && query@ == q
                } else if ms.len() == 1 {
                    r matches Ok(ctrl) && ctrl@ == ms[0]
                } else {
                    r matches Err(ResolveError::AmbiguousControl { query, candidates })
                        && query@ == q
                        && by_name(models(candidates@)) == sorted_by_key(by_name(ms))
                }
            }
        },
    }
}

/// Looking a control up and resolving its name agree: where a name that
/// is neither taken for a UUID, nor an alias, nor ends with `]` finds a
/// control, it resolves to that control's UUID.
pub proof fn law_find_agrees_with_resolve(c: &LoxClient, q: Seq<char>, ctrl: Control)
    requires
        q.len() > 0 ==> q.last() != ']',
        alias_target(c.cfg.aliases@, q) is None,
        find_outcome(c, q, false, Ok(ctrl)),
    ensures
        resolve_outcome(c, q, false, None, Ok::<String, ResolveError>(ctrl.uuid)),
{
    assert(split_qualifier(q) == (q, None::<Seq<char>>)) by {
        match last_index_of(q, '[') {
            Some(i) => {},
            None => {},
        }
    }
}

/// What `resolve_with_room` returns for `q` (UUID-like when `uuid`) and the
/// room filter `rf`.
pub open spec fn resolve_outcome(c: &LoxClient, q: Seq<char>, uuid: bool, rf: Option<Seq<char>>, r: Result<String, ResolveError>) -> bool {
    if uuid {
        r matches Ok(u) && u@ == q
    } else if alias_target(c.cfg.aliases@, q) is Some {
        r matches Ok(u) && Some(u@) == alias_target(c.cfg.aliases@, q)
    } else {
        match c.structure {
            None => r matches Err(ResolveError::StructureNotLoaded),
            Some(s) => {
                let (name_part, room_part) = split_qualifier(q);
                let room = if room_part is Some { room_part } else { rf };
                let ms = matching(all_controls(s), name_part, room);
                if ms.len() == 0 {
                    r matches Err(ResolveError::NoMatch { query }) && query@ == q
                } else if ms.len() == 1 {
                    r matches Ok(u) && u@ == ms[0].uuid
                } else {
                    r matches Err(ResolveError::Ambiguous { query, candidates })
                        && query@ == q
                        && by_name(models(candidates@)) == sorted_by_key(by_name(ms))
                }
            },
        }
    }
}

proof fn lemma_last_index_after(a: Seq<char>, c: char, b: Seq<char>)
    requires
        !b.contains(c),
    ensures
        last_index_of(a + seq![c] + b, c) == Some(a.len() as int),
    decreases b.len(),
{
    let s = a + seq![c] + b;
    if b.len() == 0 {
        assert(s.last() == c);
    } else {
        assert(s.last() == b.last());
        assert(b.contains(b.last())) by {
            assert(b[b.len() - 1] == b.last());
        }
        assert(s.drop_last() =~= a + seq![c] + b.drop_last());
        assert(!b.drop_last().contains(c)) by {
            if b.drop_last().contains(c) {
                let k = choose|k: int| 0 <= k < b.drop_last().len() && b.drop_last()[k] == c;
                assert(b[k] == c);
            }
        }
        lemma_last_index_after(a, c, b.drop_last());
    }
}

/// A name with a `[Room]` qualifier splits into the name and the room.
proof fn lemma_split_qualified(n: Seq<char>, room: Seq<char>)
    requires
        n.len() > 0 ==> !is_white_space(n[0]) && !is_white_space(n.last()),
        !room.contains('['),
    ensures
        split_qualifier(n + seq![' ', '['] + room + seq![']']) == (n, Some(room)),
{
    let q = n + seq![' ', '['] + room + seq![']'];
    let a = n + seq![' '];
    let b = room + seq![']'];
    assert(q =~= a + seq!['['] + b);
    assert(!b.contains('[')) by {
        if b.contains('[') {
            let k = choose|k: int| 0 <= k < b.len() && b[k] == '[';
            if k < room.len() {
                assert(room[k] == '[');
            }
        }
    }
    lemma_last_index_after(a, '[', b);
    let i = a.len() as int;
    assert(q.last() == ']');
    assert(q.subrange(0, i) =~= a);
    assert(q.subrange(i + 1, q.len() - 1) =~= room);
    assert(is_white_space(' '));
    if n.len() == 0 {
        assert(a.drop_first() =~= n);
        assert(trim_front(a) == trim_front(n));
        assert(trimmed(a) == n);
    } else {
        assert(a[0] == n[0]);
        assert(trim_front(a) == a);
        assert(a.drop_last() =~= n);
        assert(trim_back(a) == trim_back(n));
        assert(trim_back(n) == n);
    }
}

/// A trailing `[Room]` qualifier selects as the room filter does, and
/// overrides any room filter given beside it: for every UUID and every room
/// filter, `Name [Room]` resolves to it exactly when `Name` with the room
/// filter `Room` does, where `Name` is trimmed, neither `Name` nor `Room`
/// holds a `[`, and neither text is taken for a UUID or an alias.
pub proof fn law_qualifier_as_room_filter(c: &LoxClient, n: Seq<char>, room: Seq<char>, rf: Option<Seq<char>>, u: String)
    requires
        trimmed(n) == n,
        !n.contains('['),
        !room.contains('['),
        alias_target(c.cfg.aliases@, n + seq![' ', '['] + room + seq![']']) is None,
        alias_target(c.cfg.aliases@, n) is None,
    ensures
        resolve_outcome(c, n + seq![' ', '['] + room + seq![']'], false, rf, Ok(u))
            <==> resolve_outcome(c, n, false, Some(room), Ok(u)),
{
    if n.len() > 0 {
        crate::text::lemma_trimmed_ends(n);
    }
    lemma_split_qualified(n, room);
    lemma_last_index_of(n, '[');
    assert(last_index_of(n, '[') is None) by {
        if let Some(i) = last_index_of(n, '[') {
            assert(n.contains(n[i]));
        }
    }
    assert(split_qualifier(n) == (n, None::<Seq<char>>));
}

/// The names of the structure's rooms (those that have one), in file order.
pub open spec fn named_rooms(rooms: Seq<StructureRoom>) -> Seq<Seq<char>>
    decreases rooms.len(),
{
    if rooms.len() == 0 {
        Seq::empty()
    } else {
        let rest = named_rooms(rooms.drop_last());
        match rooms.last().name {
            Some(n) => rest.push(n@),
            None => rest,
        }
    }
}

/// The room names of a structure, sorted.
pub fn room_names(structure: &Structure) -> (r: Vec<String>)
    ensures
        crate::scene::self_keyed(crate::text::views_of(r@)) == sorted_by_key(crate::scene::self_keyed(named_rooms(structure.rooms@))),
        is_stable_sort(crate::scene::self_keyed(crate::text::views_of(r@)), crate::scene::self_keyed(named_rooms(structure.rooms@))),
{
    let n = structure.rooms.len();
    let mut names: Vec<String> = Vec::new();
    let mut i: usize = 0;
    while i < n
        invariant
            n == structure.rooms@.len(),
            i <= n,
            crate::text::views_of(names@) == named_rooms(structure.rooms@.take(i as int)),
        decreases n - i,
    {
        assert(structure.rooms@.take(i + 1).drop_last() == structure.rooms@.take(i as int));
        assert(structure.rooms@.take(i + 1).last() == structure.rooms@[i as int]);
        match &structure.rooms[i].name {
            Some(nm) => {
                let ghost before = crate::text::views_of(names@);
                names.push(nm.clone());
                assert(crate::text::views_of(names@) =~= before.push(nm@));
            },
            None => {},
        }
        i = i + 1;
    }
    assert(structure.rooms@.take(n as int) == structure.rooms@);
    crate::scene::sort_texts(names)
}

/// The states of the first control of the structure with this UUID (none
/// when no control has it).
pub open spec fn states_in(controls: Seq<StructureControl>, uuid: Seq<char>) -> Seq<(String, String)>
    decreases controls.len(),
{
    if controls.len() == 0 {
        Seq::empty()
    } else if controls[0].uuid@ == uuid {
        controls[0].states@
    } else {
        states_in(controls.drop_first(), uuid)
    }
}

fn clone_pairs(v: &Vec<(String, String)>) -> (r: Vec<(String, String)>)
    ensures
        r@.len() == v@.len(),
        forall|i: int| 0 <= i < v@.len() ==> (#[trigger] r@[i]).0@ == v@[i].0@ && r@[i].1@ == v@[i].1@,
{
    let n = v.len();
    let mut out: Vec<(String, String)> = Vec::new();
    let mut i: usize = 0;
    while i < n
        invariant
            n == v@.len(),
            i <= n,
            out@.len() == i,
            forall|k: int| 0 <= k < i ==> (#[trigger] out@[k]).0@ == v@[k].0@ && out@[k].1@ == v@[k].1@,
        decreases n - i,
    {
        out.push((v[i].0.clone(), v[i].1.clone()));
        i = i + 1;
    }
    out
}

/// The states (name, state UUID) of the control with this UUID.
pub fn control_states(structure: &Structure, uuid: &str) -> (r: Vec<(String, String)>)
    ensures
        r@.len() == states_in(structure.controls@, uuid@).len(),
        forall|i: int| 0 <= i < r@.len() ==>
            (#[trigger] r@[i]).0@ == states_in(structure.controls@, uuid@)[i].0@
                && r@[i].1@ == states_in(structure.controls@, uuid@)[i].1@,
{
    let n = structure.controls.len();
    let want = chars_of(uuid);
    let mut i: usize = 0;
    assert(structure.controls@.skip(0) == structure.controls@);
    while i < n
        invariant
            n == structure.controls@.len(),
            i <= n,
            want@ == uuid@,
            states_in(structure.controls@, uuid@) == states_in(structure.controls@.skip(i as int), uuid@),
        decreases n - i,
    {
        assert(structure.controls@.skip(i as int).drop_first() == structure.controls@.skip(i + 1));
        assert(structure.controls@.skip(i as int)[0] == structure.controls@[i as int]);
        let u = chars_of(structure.controls[i].uuid.as_str());
        if chars_equal(&u, &want) {
            return clone_pairs(&structure.controls[i].states);
        }
        i = i + 1;
    }
    Vec::new()
}

/// `s` without its leading `/` characters.
pub open spec fn strip_leading_slashes(s: Seq<char>) -> Seq<char>
    decreases s.len(),
{
    if s.len() > 0 && s[0] == '/' { strip_leading_slashes(s.drop_first()) } else { s }
}

/// The URL of a request path on the Miniserver: `host/path`, the path's
/// leading slashes dropped.
pub fn request_url(host: &str, path: &str) -> (u: String)
    ensures
        u@ == host@ + seq!['/'] + strip_leading_slashes(path@),
{
    let p = chars_of(path);
    let n = p.len();
    let mut i: usize = 0;
    assert(p@.skip(0) == p@);
    while i < n && p[i] == '/'
        invariant
            n == p@.len(),
            i <= n,
            strip_leading_slashes(p@) == strip_leading_slashes(p@.skip(i as int)),
        decreases n - i,
    {
        assert(p@.skip(i as int).drop_first() == p@.skip(i + 1));
        assert(p@.skip(i as int)[0] == p@[i as int]);
        i = i + 1;
    }
    assert(strip_leading_slashes(p@.skip(i as int)) == p@.skip(i as int)) by {
        if i < n {
            assert(p@.skip(i as int)[0] == p@[i as int]);
        }
    }
    let rest = crate::text::sub_chars(&p, i, n);
    assert(rest@ == p@.skip(i as int));
    let mut v: Vec<char> = Vec::new();
    push_str(&mut v, host);
    v.push('/');
    push_chars(&mut v, &rest);
    string_of(&v)
}

/// The request path that sends `cmd` to the control `uuid`.
pub fn command_path(uuid: &str, cmd: &str) -> (p: String)
    ensures
        p@ == "/jdev/sps/io/"@ + uuid@ + "/"@ + cmd@,
{
    let mut v: Vec<char> = Vec::new();
    push_str(&mut v, "/jdev/sps/io/");
    push_str(&mut v, uuid);
    push_str(&mut v, "/");
    push_str(&mut v, cmd);
    string_of(&v)
}

/// The request path that reads all outputs of the control `uuid`.
pub fn all_outputs_path(uuid: &str) -> (p: String)
    ensures
        p@ == "/dev/sps/io/"@ + uuid@ + "/all"@,
{
    let mut v: Vec<char> = Vec::new();
    push_str(&mut v, "/dev/sps/io/");
    push_str(&mut v, uuid);
    push_str(&mut v, "/all");
    string_of(&v)
}

/// The request path that reads a state's value.
pub fn state_path(state_uuid: &str) -> (p: String)
    ensures
        p@ == "/jdev/sps/io/"@ + state_uuid@ + "/state"@,
{
    let mut v: Vec<char> = Vec::new();
    push_str(&mut v, "/jdev/sps/io/");
    push_str(&mut v, state_uuid);
    push_str(&mut v, "/state");
    string_of(&v)
}

/// A cached structure file is used while younger than a day.
pub fn cache_is_fresh(age_secs: u64) -> (b: bool)
    ensures
        b == (age_secs < 86400),
{
    age_secs < 86400
}

} // verus!

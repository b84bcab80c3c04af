//! A small JSON reader and writer: enough for the configuration file, the
//! status report and the replies of the proxy's controller.
use vstd::prelude::*;
use crate::text::{split_char, split_on, views};

verus! {

/// A JSON value. Numbers are fixed-point thousandths (see `number`).
#[derive(Debug)]
pub enum Json {
    Null,
    Bool(bool),
    Num(i64),
    Str(String),
    Arr(Vec<Json>),
    Obj(Vec<(String, Json)>),
}

/// The mathematical value a `Json` stands for.
pub enum JsonModel {
    Null,
    Bool(bool),
    Num(int),
    Str(Seq<char>),
    Arr(Seq<JsonModel>),
    Obj(Seq<(Seq<char>, JsonModel)>),
}

impl Json {
    pub open spec fn model(&self) -> JsonModel
        decreases self, 0int,
    {
        match self {
            Json::Null => JsonModel::Null,
            Json::Bool(b) => JsonModel::Bool(*b),
            Json::Num(n) => JsonModel::Num(*n as int),
            Json::Str(t) => JsonModel::Str(t@),
            Json::Arr(items) => JsonModel::Arr(Json::models(items@)),
            Json::Obj(fields) => JsonModel::Obj(Json::field_models(fields@)),
        }
    }

    pub open spec fn models(s: Seq<Json>) -> Seq<JsonModel>
        decreases s, 1int,
    {
        if s.len() == 0 {
            Seq::empty()
        } else {
            Json::models(s.drop_last()).push(s.last().model())
        }
    }

    pub open spec fn field_models(s: Seq<(String, Json)>) -> Seq<(Seq<char>, JsonModel)>
        decreases s, 1int,
    {
        if s.len() == 0 {
            Seq::empty()
        } else {
            Json::field_models(s.drop_last()).push((s.last().0@, s.last().1.model()))
        }
    }
}

pub proof fn lemma_models(s: Seq<Json>)
    ensures
        Json::models(s).len() == s.len(),
        forall|i: int| 0 <= i < s.len() ==> #[trigger] Json::models(s)[i] == s[i].model(),
    decreases s.len(),
{
    if s.len() > 0 {
        lemma_models(s.drop_last());
    }
}

pub proof fn lemma_field_models(s: Seq<(String, Json)>)
    ensures
        Json::field_models(s).len() == s.len(),
        forall|i: int|
            0 <= i < s.len() ==> #[trigger] Json::field_models(s)[i] == (s[i].0@, s[i].1.model()),
    decreases s.len(),
{
    if s.len() > 0 {
        lemma_field_models(s.drop_last());
    }
}

} // verus!

verus! {

/// The value of the first member named `key`.
pub open spec fn lookup(fields: Seq<(Seq<char>, JsonModel)>, key: Seq<char>) -> Option<JsonModel>
    decreases fields.len(),
{
    if fields.len() == 0 {
        None
    } else if fields[0].0 == key {
        Some(fields[0].1)
    } else {
        lookup(fields.skip(1), key)
    }
}

/// A member of an object; nothing for other values.
pub open spec fn model_get(v: JsonModel, key: Seq<char>) -> Option<JsonModel> {
    match v {
        JsonModel::Obj(fields) => lookup(fields, key),
        _ => None,
    }
}

/// The value reached by following the keys one after another.
pub open spec fn model_walk(v: JsonModel, keys: Seq<Seq<char>>) -> Option<JsonModel>
    decreases keys.len(),
{
    if keys.len() == 0 {
        Some(v)
    } else {
        match model_get(v, keys[0]) {
            Some(w) => model_walk(w, keys.skip(1)),
            None => None,
        }
    }
}

/// The value at a dotted path such as `clash.proxy`.
pub open spec fn model_path(v: JsonModel, path: Seq<char>) -> Option<JsonModel> {
    model_walk(v, split_on(path, '.'))
}

pub open spec fn model_string(v: JsonModel, path: Seq<char>, fallback: Seq<char>) -> Seq<char> {
    match model_path(v, path) {
        Some(JsonModel::Str(t)) => t,
        _ => fallback,
    }
}

pub open spec fn model_number(v: JsonModel, path: Seq<char>, fallback: int) -> int {
    match model_path(v, path) {
        Some(JsonModel::Num(n)) => n,
        _ => fallback,
    }
}

pub open spec fn model_flag(v: JsonModel, path: Seq<char>, fallback: bool) -> bool {
    match model_path(v, path) {
        Some(JsonModel::Bool(b)) => b,
        _ => fallback,
    }
}

/// The string items of a list, in order; other items are skipped.
pub open spec fn string_items(s: Seq<JsonModel>) -> Seq<Seq<char>>
    decreases s.len(),
{
    if s.len() == 0 {
        Seq::empty()
    } else {
        let rest = string_items(s.drop_last());
        match s.last() {
            JsonModel::Str(t) => rest.push(t),
            _ => rest,
        }
    }
}

pub open spec fn model_string_list(v: JsonModel, path: Seq<char>) -> Seq<Seq<char>> {
    match model_path(v, path) {
        Some(JsonModel::Arr(items)) => string_items(items),
        _ => Seq::empty(),
    }
}

impl Json {
    /// The first member named `key`, when this is an object.
    pub fn get(&self, key: &str) -> (r: Option<&Json>)
        ensures
            match r {
                Some(x) => model_get(self.model(), key@) == Some(x.model()),
                None => model_get(self.model(), key@) is None,
            },
    {
        match self {
            Json::Obj(fields) => {
                let k = key.to_owned();
                let ghost fs = Json::field_models(fields@);
                proof {
                    lemma_field_models(fields@);
                }
                let mut i: usize = 0;
                assert(fs.skip(0) =~= fs);
                while i < fields.len()
                    invariant
                        i <= fields.len(),
                        fs == Json::field_models(fields@),
                        self.model() == JsonModel::Obj(fs),
                        fs.len() == fields.len(),
                        k@ == key@,
                        lookup(fs, key@) == lookup(fs.skip(i as int), key@),
                    decreases fields.len() - i,
                {
                    proof {
                        lemma_field_models(fields@);
                    }
                    assert(fs.skip(i as int)[0] == fs[i as int]);
                    assert(fs.skip(i as int).skip(1) =~= fs.skip(i + 1));
                    assert(fs[i as int] == (fields@[i as int].0@, fields@[i as int].1.model()));
                    if fields[i].0 == k {
                        return Some(&fields[i].1);
                    }
                    i += 1;
                }
                assert(fs.skip(i as int).len() == 0);
                None
            },
            _ => None,
        }
    }

    fn walk(&self, keys: &Vec<String>, from: usize) -> (r: Option<&Json>)
        requires
            from <= keys.len(),
        ensures
            match r {
                Some(x) => model_walk(self.model(), views(keys@).skip(from as int)) == Some(
                    x.model(),
                ),
                None => model_walk(self.model(), views(keys@).skip(from as int)) is None,
            },
        decreases keys.len() - from,
    {
        let ghost ks = views(keys@).skip(from as int);
        if from == keys.len() {
            assert(ks.len() == 0);
            return Some(self);
        }
        assert(ks[0] == keys@[from as int]@);
        assert(ks.skip(1) =~= views(keys@).skip(from + 1));
        match self.get(keys[from].as_str()) {
            Some(next) => next.walk(keys, from + 1),
            None => None,
        }
    }

    /// The value at a dotted path such as `clash.proxy`.
    pub fn path(&self, path: &str) -> (r: Option<&Json>)
        ensures
            match r {
                Some(x) => model_path(self.model(), path@) == Some(x.model()),
                None => model_path(self.model(), path@) is None,
            },
    {
        let keys = split_char(path, '.');
        assert(views(keys@).skip(0) =~= views(keys@));
        self.walk(&keys, 0)
    }

    pub fn as_str(&self) -> (r: Option<&str>)
        ensures
            match r {
                Some(t) => self.model() == JsonModel::Str(t@),
                None => !(self.model() is Str),
            },
    {
        match self {
            Json::Str(text) => Some(text.as_str()),
            _ => None,
        }
    }

    /// The number in thousandths.
    pub fn as_milli(&self) -> (r: Option<i64>)
        ensures
            match r {
                Some(n) => self.model() == JsonModel::Num(n as int),
                None => !(self.model() is Num),
            },
    {
        match self {
            Json::Num(value) => Some(*value),
            _ => None,
        }
    }

    pub fn as_bool(&self) -> (r: Option<bool>)
        ensures
            match r {
                Some(b) => self.model() == JsonModel::Bool(b),
                None => !(self.model() is Bool),
            },
    {
        match self {
            Json::Bool(value) => Some(*value),
            _ => None,
        }
    }

    pub fn as_arr(&self) -> (r: Option<&Vec<Json>>)
        ensures
            match r {
                Some(items) => self.model() == JsonModel::Arr(Json::models(items@)),
                None => !(self.model() is Arr),
            },
    {
        match self {
            Json::Arr(items) => Some(items),
            _ => None,
        }
    }

    /// The string at `path`, or `fallback`.
    pub fn string(&self, path: &str, fallback: &str) -> (r: String)
        ensures
            r@ == model_string(self.model(), path@, fallback@),
    {
        match self.path(path) {
            Some(v) => match v.as_str() {
                Some(t) => t.to_owned(),
                None => fallback.to_owned(),
            },
            None => fallback.to_owned(),
        }
    }

    /// The number at `path` in thousandths, or `fallback`.
    pub fn number(&self, path: &str, fallback: i64) -> (r: i64)
        ensures
            r as int == model_number(self.model(), path@, fallback as int),
    {
        match self.path(path) {
            Some(v) => match v.as_milli() {
                Some(n) => n,
                None => fallback,
            },
            None => fallback,
        }
    }

    /// The boolean at `path`, or `fallback`.
    pub fn flag(&self, path: &str, fallback: bool) -> (r: bool)
        ensures
            r == model_flag(self.model(), path@, fallback),
    {
        match self.path(path) {
            Some(v) => match v.as_bool() {
                Some(b) => b,
                None => fallback,
            },
            None => fallback,
        }
    }

    /// The strings of the list at `path`; other items are skipped.
    pub fn string_list(&self, path: &str) -> (r: Vec<String>)
        ensures
            views(r@) == model_string_list(self.model(), path@),
    {
        let mut out: Vec<String> = Vec::new();
        match self.path(path) {
            Some(v) => match v.as_arr() {
                Some(items) => {
                    let ghost ms = Json::models(items@);
                    proof {
                        lemma_models(items@);
                    }
                    let mut i: usize = 0;
                    while i < items.len()
                        invariant
                            i <= items.len(),
                            ms == Json::models(items@),
                            ms.len() == items.len(),
                            views(out@) == string_items(ms.take(i as int)),
                        decreases items.len() - i,
                    {
                        proof {
                            lemma_models(items@);
                        }
                        assert(ms.take(i + 1).drop_last() =~= ms.take(i as int));
                        assert(ms.take(i + 1).last() == items@[i as int].model());
                        let ghost before = out@;
                        match items[i].as_str() {
                            Some(t) => {
                                out.push(t.to_owned());
                                assert(views(out@) =~= views(before).push(t@));
                            },
                            None => {},
                        }
                        i += 1;
                    }
                    assert(ms.take(items.len() as int) =~= ms);
                },
                None => {
                    assert(views(out@) =~= Seq::<Seq<char>>::empty());
                },
            },
            None => {
                assert(views(out@) =~= Seq::<Seq<char>>::empty());
            },
        }
        out
    }
}

} // verus!

verus! {

/// Adds the member `key: v` at the end of an object's members.
pub fn push_field(fields: &mut Vec<(String, Json)>, key: &str, v: Json)
    ensures
        Json::field_models(final(fields)@) == Json::field_models(old(fields)@).push(
            (key@, v.model()),
        ),
{
    let ghost before = fields@;
    let ghost m = v.model();
    fields.push((key.to_owned(), v));
    assert(fields@.drop_last() =~= before);
}

/// Adds an item at the end of an array's items.
pub fn push_item(items: &mut Vec<Json>, v: Json)
    ensures
        Json::models(final(items)@) == Json::models(old(items)@).push(v.model()),
{
    let ghost before = items@;
    let ghost m = v.model();
    items.push(v);
    assert(items@.drop_last() =~= before);
}

pub open spec fn str_models(s: Seq<Seq<char>>) -> Seq<JsonModel> {
    Seq::new(s.len(), |i: int| JsonModel::Str(s[i]))
}

/// An array of the given strings.
pub fn string_array(v: &Vec<String>) -> (r: Json)
    ensures
        r.model() == JsonModel::Arr(str_models(views(v@))),
{
    let mut items: Vec<Json> = Vec::new();
    let mut i: usize = 0;
    while i < v.len()
        invariant
            i <= v.len(),
            Json::models(items@) == str_models(views(v@)).take(i as int),
        decreases v.len() - i,
    {
        push_item(&mut items, Json::Str(v[i].clone()));
        assert(str_models(views(v@)).take(i + 1) =~= str_models(views(v@)).take(i as int).push(
            JsonModel::Str(v@[i as int]@),
        ));
        i += 1;
    }
    assert(str_models(views(v@)).take(v.len() as int) =~= str_models(views(v@)));
    Json::Arr(items)
}

/// A copy of this value.
#[verifier::loop_isolation(false)]
pub fn duplicate(v: &Json) -> (r: Json)
    ensures
        r.model() == v.model(),
    decreases v,
{
    match v {
        Json::Null => Json::Null,
        Json::Bool(b) => Json::Bool(*b),
        Json::Num(n) => Json::Num(*n),
        Json::Str(t) => Json::Str(t.clone()),
        Json::Arr(items) => {
            let mut out: Vec<Json> = Vec::new();
            let mut i: usize = 0;
            proof {
                lemma_models(items@);
            }
            while i < items.len()
                invariant
                    i <= items.len(),
                    Json::models(out@) == Json::models(items@).take(i as int),
                decreases items.len() - i,
            {
                proof {
                    lemma_models(items@);
                    assert(decreases_to!(*v => *items));
                    assert(decreases_to!(*items => items@));
                    assert(decreases_to!(items@ => items@[i as int]));
                }
                push_item(&mut out, duplicate(&items[i]));
                assert(Json::models(items@).take(i + 1) =~= Json::models(items@).take(
                    i as int,
                ).push(items@[i as int].model()));
                i += 1;
            }
            assert(Json::models(items@).take(items.len() as int) =~= Json::models(items@));
            Json::Arr(out)
        },
        Json::Obj(fields) => {
            let mut out: Vec<(String, Json)> = Vec::new();
            let mut i: usize = 0;
            while i < fields.len()
                invariant
                    i <= fields.len(),
                    Json::field_models(out@) == Json::field_models(fields@).take(i as int),
                decreases fields.len() - i,
            {
                proof {
                    lemma_field_models(fields@);
                    assert(decreases_to!(*v => *fields));
                    assert(decreases_to!(*fields => fields@));
                    assert(decreases_to!(fields@ => fields@[i as int]));
                    assert(decreases_to!(fields@[i as int] => fields@[i as int].1));
                }
                let value = duplicate(&fields[i].1);
                push_field(&mut out, fields[i].0.as_str(), value);
                assert(Json::field_models(fields@).take(i + 1) =~= Json::field_models(
                    fields@,
                ).take(i as int).push((fields@[i as int].0@, fields@[i as int].1.model())));
                i += 1;
            }
            proof {
                lemma_field_models(fields@);
            }
            assert(Json::field_models(fields@).take(fields.len() as int) =~= Json::field_models(
                fields@,
            ));
            Json::Obj(out)
        },
    }
}

} // verus!

//! A JSON document model: the values the import and release rules read from
//! parsed JSON, with object members kept in document order.
use vstd::prelude::*;

use crate::text::{chars_eq, chars_of, owned};

verus! {

/// A JSON value. Numbers keep their source text; objects keep their members in
/// order, and a lookup finds the first member with the key.
#[derive(Debug)]
pub enum JsonValue {
    Null,
    Bool(bool),
    Number(String),
    String(String),
    Array(Vec<JsonValue>),
    Object(Vec<(String, JsonValue)>),
}

/// The index of the first member named `key`, if any.
pub open spec fn member_index(members: Seq<(String, JsonValue)>, key: Seq<char>) -> Option<int>
    decreases members.len(),
{
    if members.len() == 0 {
        None
    } else if members[0].0@ == key {
        Some(0)
    } else {
        match member_index(members.drop_first(), key) {
            Some(i) => Some(i + 1),
            None => None,
        }
    }
}

pub proof fn lemma_member_index(members: Seq<(String, JsonValue)>, key: Seq<char>)
    ensures
        member_index(members, key) matches Some(i) ==> 0 <= i < members.len() && members[i].0@
            == key && forall|k: int| 0 <= k < i ==> members[k].0@ != key,
        member_index(members, key) is None ==> forall|k: int|
            0 <= k < members.len() ==> members[k].0@ != key,
    decreases members.len(),
{
    if members.len() > 0 {
        lemma_member_index(members.drop_first(), key);
        if member_index(members, key) is None {
            assert forall|k: int| 0 <= k < members.len() implies members[k].0@ != key by {
                if k > 0 {
                    assert(members.drop_first()[k - 1] == members[k]);
                }
            }
        }
        if let Some(i) = member_index(members, key) {
            if i > 0 {
                assert forall|k: int| 0 <= k < i implies members[k].0@ != key by {
                    if k > 0 {
                        assert(members.drop_first()[k - 1] == members[k]);
                    }
                }
            }
        }
    }
}

/// The value an optional reference points to.
pub open spec fn deref_opt(o: Option<&JsonValue>) -> Option<JsonValue> {
    match o {
        Some(v) => Some(*v),
        None => None,
    }
}

impl JsonValue {
    /// The value of member `key` of an object; `None` for any other value.
    pub open spec fn member(self, key: Seq<char>) -> Option<JsonValue> {
        match self {
            JsonValue::Object(members) => match member_index(members@, key) {
                Some(i) => Some(members@[i].1),
                None => None,
            },
            _ => None,
        }
    }

    /// The text of a string value.
    pub open spec fn text(self) -> Option<Seq<char>> {
        match self {
            JsonValue::String(s) => Some(s@),
            _ => None,
        }
    }

    /// The text of member `key` when that member is a string.
    pub open spec fn member_text(self, key: Seq<char>) -> Option<Seq<char>> {
        match self.member(key) {
            Some(v) => v.text(),
            None => None,
        }
    }

    /// `serde_json::Value::get` with a key.
    pub fn get(&self, key: &str) -> (r: Option<&JsonValue>)
        ensures
            r matches Some(v) ==> self.member(key@) == Some(*v),
            r is None ==> self.member(key@) is None,
    {
        match self {
            JsonValue::Object(members) => {
                let k = chars_of(key);
                let mut i: usize = 0;
                while i < members.len()
                    invariant
                        i <= members@.len(),
                        k@ == key@,
                        *self == JsonValue::Object(*members),
                        forall|j: int| 0 <= j < i ==> members@[j].0@ != key@,
                    decreases members@.len() - i,
                {
                    let name = chars_of(members[i].0.as_str());
                    if chars_eq(name.as_slice(), k.as_slice()) {
                        proof {
                            lemma_member_index(members@, key@);
                            assert(members@[i as int].0@ == key@);
                            match member_index(members@, key@) {
                                Some(j) => {
                                    if j < i {
                                        assert(members@[j].0@ != key@);
                                    }
                                    if j > i {
                                        assert(members@[i as int].0@ != key@);
                                    }
                                },
                                None => {
                                    assert(members@[i as int].0@ != key@);
                                },
                            }
                            assert(member_index(members@, key@) == Some(i as int));
                            assert(*self == JsonValue::Object(*members));
                            assert(self.member(key@) == Some(members@[i as int].1));
                        }
                        return Some(&members[i].1);
                    }
                    i = i + 1;
                }
                proof {
                    lemma_member_index(members@, key@);
                }
                None
            },
            _ => None,
        }
    }

    /// `serde_json::Value::as_str`.
    pub fn as_str(&self) -> (r: Option<&str>)
        ensures
            r matches Some(s) ==> self.text() == Some(s@),
            r is None ==> self.text() is None,
    {
        match self {
            JsonValue::String(s) => Some(s.as_str()),
            _ => None,
        }
    }

    /// `serde_json::Value::as_array`.
    pub fn as_array(&self) -> (r: Option<&Vec<JsonValue>>)
        ensures
            r matches Some(v) ==> *self == JsonValue::Array(*v),
            r is None ==> !(self is Array),
    {
        match self {
            JsonValue::Array(v) => Some(v),
            _ => None,
        }
    }

    /// The members of an object.
    pub fn as_object(&self) -> (r: Option<&Vec<(String, JsonValue)>>)
        ensures
            r matches Some(v) ==> *self == JsonValue::Object(*v),
            r is None ==> !(self is Object),
    {
        match self {
            JsonValue::Object(v) => Some(v),
            _ => None,
        }
    }

    /// The text of member `key` when it is a string.
    pub fn get_str(&self, key: &str) -> (r: Option<&str>)
        ensures
            r matches Some(s) ==> self.member_text(key@) == Some(s@),
            r is None ==> self.member_text(key@) is None,
    {
        match self.get(key) {
            Some(v) => v.as_str(),
            None => None,
        }
    }
}

/// A JSON value as a mathematical value: texts and sequences in place of
/// strings and vectors.
pub enum JsonData {
    Null,
    Bool(bool),
    Number(Seq<char>),
    Text(Seq<char>),
    Array(Seq<JsonData>),
    Object(Seq<(Seq<char>, JsonData)>),
}

/// The mathematical value of a JSON value.
pub open spec fn data(v: JsonValue) -> JsonData
    decreases v,
{
    match v {
        JsonValue::Null => JsonData::Null,
        JsonValue::Bool(b) => JsonData::Bool(b),
        JsonValue::Number(n) => JsonData::Number(n@),
        JsonValue::String(s) => JsonData::Text(s@),
        JsonValue::Array(items) => JsonData::Array(data_items(items@)),
        JsonValue::Object(members) => JsonData::Object(data_members(members@)),
    }
}

pub open spec fn data_items(items: Seq<JsonValue>) -> Seq<JsonData>
    decreases items,
{
    if items.len() == 0 {
        Seq::empty()
    } else {
        seq![data(items[0])] + data_items(items.subrange(1, items.len() as int))
    }
}

pub open spec fn data_members(members: Seq<(String, JsonValue)>) -> Seq<(Seq<char>, JsonData)>
    decreases members,
{
    if members.len() == 0 {
        Seq::empty()
    } else {
        seq![(members[0].0@, data(members[0].1))] + data_members(members.subrange(1, members.len() as int))
    }
}

pub proof fn lemma_data_items(items: Seq<JsonValue>)
    ensures
        data_items(items).len() == items.len(),
        forall|i: int| 0 <= i < items.len() ==> #[trigger] data_items(items)[i] == data(items[i]),
    decreases items.len(),
{
    if items.len() > 0 {
        let rest = items.subrange(1, items.len() as int);
        lemma_data_items(rest);
        assert forall|i: int| 0 <= i < items.len() implies #[trigger] data_items(items)[i] == data(items[i]) by {
            if i > 0 {
                assert(rest[i - 1] == items[i]);
            }
        }
    }
}

pub proof fn lemma_data_members(members: Seq<(String, JsonValue)>)
    ensures
        data_members(members).len() == members.len(),
        forall|i: int|
            0 <= i < members.len() ==> #[trigger] data_members(members)[i] == (members[i].0@, data(members[i].1)),
    decreases members.len(),
{
    if members.len() > 0 {
        let rest = members.subrange(1, members.len() as int);
        lemma_data_members(rest);
        assert forall|i: int| 0 <= i < members.len() implies #[trigger] data_members(members)[i] == (members[i].0@, data(members[i].1)) by {
            if i > 0 {
                assert(rest[i - 1] == members[i]);
            }
        }
    }
}

impl JsonValue {
    /// A deep copy.
    pub fn duplicate(&self) -> (r: JsonValue)
        ensures
            data(r) == data(*self),
        decreases self,
    {
        match self {
            JsonValue::Null => JsonValue::Null,
            JsonValue::Bool(b) => JsonValue::Bool(*b),
            JsonValue::Number(n) => JsonValue::Number(n.clone()),
            JsonValue::String(t) => JsonValue::String(t.clone()),
            JsonValue::Array(items) => {
                let mut out: Vec<JsonValue> = Vec::new();
                let mut i: usize = 0;
                while i < items.len()
                    invariant
                        i <= items@.len(),
                        *self == JsonValue::Array(*items),
                        out@.len() == i,
                        forall|k: int| 0 <= k < i ==> data(#[trigger] out@[k]) == data(items@[k]),
                    decreases items@.len() - i,
                {
                    proof {
                        assert(decreases_to!(*self => (*self)->Array_0));
                        vstd::std_specs::vec::axiom_vec_index_decreases(*items, i as int);
                    }
                    out.push(items[i].duplicate());
                    i = i + 1;
                }
                proof {
                    lemma_data_items(out@);
                    lemma_data_items(items@);
                    assert(data_items(out@) =~= data_items(items@));
                }
                JsonValue::Array(out)
            },
            JsonValue::Object(members) => {
                let mut out: Vec<(String, JsonValue)> = Vec::new();
                let mut i: usize = 0;
                while i < members.len()
                    invariant
                        i <= members@.len(),
                        *self == JsonValue::Object(*members),
                        out@.len() == i,
                        forall|k: int| 0 <= k < i ==> (#[trigger] out@[k]).0@ == members@[k].0@ && data(out@[k].1) == data(members@[k].1),
                    decreases members@.len() - i,
                {
                    proof {
                        assert(decreases_to!(*self => (*self)->Object_0));
                        vstd::std_specs::vec::axiom_vec_index_decreases(*members, i as int);
                        assert(decreases_to!(members@[i as int] => members@[i as int].1));
                    }
                    let value = members[i].1.duplicate();
                    out.push((members[i].0.clone(), value));
                    i = i + 1;
                }
                proof {
                    lemma_data_members(out@);
                    lemma_data_members(members@);
                    assert(data_members(out@) =~= data_members(members@));
                }
                JsonValue::Object(out)
            },
        }
    }
}

/// The JSON text, as UTF-8 bytes, of an array of strings.
pub uninterp spec fn json_string_array(values: Seq<Seq<char>>) -> Seq<u8>;

/// `serde_json::to_vec` on a list of strings: the compact JSON array of the
/// strings, in order. Serialising strings into a byte vector cannot fail, so the
/// error arm is never taken.
#[verifier::external_body]
pub(crate) fn encode_string_array(values: &Vec<String>) -> (r: Vec<u8>)
    ensures
        r@ == json_string_array(values@.map_values(|s: String| s@)),
{
    match serde_json::to_vec(values) {
        Ok(bytes) => bytes,
        Err(_) => Vec::new(),
    }
}

pub proof fn lemma_data_members_push(m: Seq<(String, JsonValue)>, e: (String, JsonValue))
    ensures
        data_members(m.push(e)) == data_members(m).push((e.0@, data(e.1))),
{
    lemma_data_members(m);
    lemma_data_members(m.push(e));
    assert(data_members(m.push(e)) =~= data_members(m).push((e.0@, data(e.1))));
}

/// Appends a member to an object's members.
pub fn push_member(m: &mut Vec<(String, JsonValue)>, key: &str, value: JsonValue)
    ensures
        data_members(final(m)@) == data_members(old(m)@) + seq![(key@, data(value))],
{
    let e = (owned(key), value);
    proof {
        lemma_data_members_push(m@, e);
    }
    m.push(e);
    assert(data_members(old(m)@).push((key@, data(value))) =~= data_members(old(m)@) + seq![(key@, data(value))]);
}

/// The members of an object as a map (the first member of each name); empty
/// for any other value.
pub open spec fn members_view(v: JsonValue) -> Map<Seq<char>, JsonData> {
    Map::new(|k: Seq<char>| v.member(k) is Some, |k: Seq<char>| data(v.member(k)->0))
}

/// Where a member is found depends on the names alone.
proof fn lemma_member_index_same_names(a: Seq<(String, JsonValue)>, b: Seq<(String, JsonValue)>, key: Seq<char>)
    requires
        a.len() == b.len(),
        forall|i: int| 0 <= i < a.len() ==> #[trigger] a[i].0@ == b[i].0@,
    ensures
        member_index(a, key) == member_index(b, key),
    decreases a.len(),
{
    if a.len() > 0 {
        assert(a[0].0@ == b[0].0@);
        lemma_member_index_same_names(a.drop_first(), b.drop_first(), key);
    }
}

/// Values with the same data have the same members.
pub proof fn lemma_members_view_data(a: JsonValue, b: JsonValue)
    requires
        data(a) == data(b),
    ensures
        members_view(a) == members_view(b),
{
    match (a, b) {
        (JsonValue::Object(ma), JsonValue::Object(mb)) => {
            lemma_data_members(ma@);
            lemma_data_members(mb@);
            assert forall|i: int| 0 <= i < ma@.len() implies #[trigger] ma@[i].0@ == mb@[i].0@ by {
                assert(data_members(ma@)[i] == data_members(mb@)[i]);
            }
            assert forall|k: Seq<char>| (#[trigger] a.member(k)) is Some == b.member(k) is Some && (a.member(k) is Some ==> data(a.member(k)->0) == data(b.member(k)->0)) by {
                lemma_member_index_same_names(ma@, mb@, k);
                match member_index(ma@, k) {
                    Some(i) => {
                        lemma_member_index(ma@, k);
                        assert(data_members(ma@)[i] == data_members(mb@)[i]);
                    },
                    None => {},
                }
            }
            assert(members_view(a).dom() =~= members_view(b).dom());
            assert(members_view(a) =~= members_view(b));
        },
        (JsonValue::Object(_), _) => {},
        (_, JsonValue::Object(_)) => {},
        _ => {
            assert(members_view(a) =~= members_view(b));
        },
    }
}

/// A member added at the end is found where no earlier member has its name.
proof fn lemma_member_index_push(a: Seq<(String, JsonValue)>, e: (String, JsonValue), key: Seq<char>)
    ensures
        member_index(a.push(e), key) == match member_index(a, key) {
            Some(i) => Some(i),
            None => if e.0@ == key {
                Some(a.len() as int)
            } else {
                None
            },
        },
    decreases a.len(),
{
    if a.len() == 0 {
        assert(a.push(e)[0] == e);
        assert(a.push(e).drop_first() =~= Seq::<(String, JsonValue)>::empty());
        assert(member_index(a.push(e).drop_first(), key) is None);
    } else {
        assert(a.push(e)[0] == a[0]);
        assert(a.push(e).drop_first() =~= a.drop_first().push(e));
        lemma_member_index_push(a.drop_first(), e, key);
    }
}

proof fn lemma_set_member(before: Vec<(String, JsonValue)>, after: Vec<(String, JsonValue)>, i: int, key: Seq<char>, v: JsonValue)
    requires
        0 <= i < before@.len(),
        member_index(before@, key) == Some(i),
        after@.len() == before@.len(),
        after@[i].0@ == key,
        after@[i].1 == v,
        forall|j: int| 0 <= j < before@.len() && j != i ==> #[trigger] after@[j] == before@[j],
    ensures
        members_view(JsonValue::Object(after)) == members_view(JsonValue::Object(before)).insert(key, data(v)),
{
    lemma_member_index(before@, key);
    assert forall|x: int| 0 <= x < before@.len() implies #[trigger] before@[x].0@ == after@[x].0@ by {
        if x != i {
            assert(after@[x] == before@[x]);
        }
    }
    assert forall|kk: Seq<char>| #[trigger] JsonValue::Object(after).member(kk) == (if kk == key {
        Some(v)
    } else {
        JsonValue::Object(before).member(kk)
    }) by {
        lemma_member_index_same_names(before@, after@, kk);
        lemma_member_index(before@, kk);
        if kk != key {
            match member_index(before@, kk) {
                Some(j) => {
                    assert(j != i);
                    assert(after@[j] == before@[j]);
                },
                None => {},
            }
        }
    }
    assert(members_view(JsonValue::Object(after)) =~= members_view(JsonValue::Object(before)).insert(key, data(v)));
}

/// Sets a member of an object (`Map::insert`): the member of that name takes
/// the value where there is one, else the member is added at the end.
pub fn put_member(m: &mut Vec<(String, JsonValue)>, key: &str, v: JsonValue)
    ensures
        members_view(JsonValue::Object(*final(m))) == members_view(JsonValue::Object(*old(m))).insert(key@, data(v)),
{
    let ghost before_vec = *m;
    let ghost before = m@;
    let k = chars_of(key);
    let mut i: usize = 0;
    while i < m.len()
        invariant
            i <= m@.len(),
            m@ == before,
            before_vec@ == before,
            before_vec == *old(m),
            k@ == key@,
            forall|j: int| 0 <= j < i ==> m@[j].0@ != key@,
        decreases m@.len() - i,
    {
        let name = chars_of(m[i].0.as_str());
        if chars_eq(name.as_slice(), k.as_slice()) {
            let ghost vv = v;
            m.set(i, (owned(key), v));
            proof {
                lemma_member_index(before, key@);
                assert(member_index(before, key@) == Some(i as int)) by {
                    match member_index(before, key@) {
                        Some(j) => {
                            if j < i {
                                assert(before[j].0@ != key@);
                            }
                            if j > i {
                                assert(before[i as int].0@ == key@);
                            }
                        },
                        None => {
                            assert(before[i as int].0@ == key@);
                        },
                    }
                }
                lemma_set_member(before_vec, *m, i as int, key@, vv);
            }
            return;
        }
        i = i + 1;
    }
    let ghost vv = v;
    let e = (owned(key), v);
    m.push(e);
    proof {
        lemma_member_index(before, key@);
        assert(member_index(before, key@) is None);
        assert forall|kk: Seq<char>| true implies member_index(m@, kk) == match member_index(before, kk) {
            Some(i) => Some(i),
            None => if e.0@ == kk {
                Some(before.len() as int)
            } else {
                None
            },
        } by {
            lemma_member_index_push(before, e, kk);
        }
        assert forall|kk: Seq<char>| #[trigger] JsonValue::Object(*m).member(kk) == (if kk == key@ {
            Some(vv)
        } else {
            JsonValue::Object(before_vec).member(kk)
        }) by {
            lemma_member_index_push(before, e, kk);
            lemma_member_index(before, kk);
        }
        assert(members_view(JsonValue::Object(*m)) =~= members_view(JsonValue::Object(before_vec)).insert(key@, data(vv)));
    }
}

} // verus!

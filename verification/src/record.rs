//! Records: the dynamically shaped trees that the service answers with and
//! that the harvest hands on. A record is null, a truth value, a number, a
//! text, a list of records, or an object whose members keep the order in which
//! they were put in.
use vstd::prelude::*;
use crate::text::{copy_text, same_text};

verus! {

/// One record, or one part of a record.
#[derive(Debug)]
pub enum Record {
    Null,
    Bool(bool),
    /// A number without a fractional part.
    Whole(i128),
    /// Any other number, as the text it was written with.
    Decimal(String),
    Text(String),
    List(Vec<Record>),
    /// The members of an object, each with its name, in order.
    Object(Vec<(String, Record)>),
}

/// What a record is, as a mathematical value.
pub enum Value {
    Null,
    Bool(bool),
    Whole(int),
    Decimal(Seq<char>),
    Text(Seq<char>),
    List(Seq<Value>),
    Object(Seq<(Seq<char>, Value)>),
}

/// The name and the value of one member.
pub open spec fn member_value(member: (String, Record)) -> (Seq<char>, Value)
    decreases member, 0int,
{
    (member.0@, member.1@)
}

impl View for Record {
    type V = Value;

    open spec fn view(&self) -> Value
        decreases self, 1int,
    {
        match self {
            Record::Null => Value::Null,
            Record::Bool(b) => Value::Bool(*b),
            Record::Whole(n) => Value::Whole(*n as int),
            Record::Decimal(text) => Value::Decimal(text@),
            Record::Text(text) => Value::Text(text@),
            Record::List(items) => Value::List(
                Seq::new(
                    items@.len(),
                    |i: int|
                        if 0 <= i < items@.len() {
                            items@[i]@
                        } else {
                            Value::Null
                        },
                ),
            ),
            Record::Object(members) => Value::Object(
                Seq::new(
                    members@.len(),
                    |i: int|
                        if 0 <= i < members@.len() {
                            member_value(members@[i])
                        } else {
                            (Seq::empty(), Value::Null)
                        },
                ),
            ),
        }
    }
}

/// The values of a list of records.
pub open spec fn values(items: Seq<Record>) -> Seq<Value> {
    Seq::new(items.len(), |i: int| items[i]@)
}

/// The names and values of a list of members.
pub open spec fn member_values(members: Seq<(String, Record)>) -> Seq<(Seq<char>, Value)> {
    Seq::new(members.len(), |i: int| member_value(members[i]))
}

/// The position of the first member named `key`, or the number of members.
pub open spec fn member_index(members: Seq<(Seq<char>, Value)>, key: Seq<char>) -> int
    decreases members.len(),
{
    if members.len() == 0 {
        0
    } else if members[0].0 == key {
        0
    } else {
        1 + member_index(members.skip(1), key)
    }
}

/// The member of an object that is named `key`: the first one, if several
/// are. Nothing but an object has members.
pub open spec fn member(v: Value, key: Seq<char>) -> Option<Value> {
    match v {
        Value::Object(members) => {
            let at = member_index(members, key);
            if at < members.len() {
                Some(members[at].1)
            } else {
                None
            }
        },
        _ => None,
    }
}

/// The member reached by following `keys` from `v`, one object after another.
pub open spec fn member_at(v: Value, keys: Seq<Seq<char>>) -> Option<Value>
    decreases keys.len(),
{
    if keys.len() == 0 {
        Some(v)
    } else {
        match member(v, keys[0]) {
            Some(inner) => member_at(inner, keys.skip(1)),
            None => None,
        }
    }
}

/// An object with the member `key` set to `value`: in the place of the first
/// member of that name, or at the end where there is none. Anything but an
/// object is left as it is.
pub open spec fn with_member(v: Value, key: Seq<char>, value: Value) -> Value {
    match v {
        Value::Object(members) => {
            let at = member_index(members, key);
            if at < members.len() {
                Value::Object(members.update(at, (key, value)))
            } else {
                Value::Object(members.push((key, value)))
            }
        },
        _ => v,
    }
}

/// A value in which the member `second` of the member `first` is set to
/// `value`, where both members are there; else the value as it is.
pub open spec fn with_nested(v: Value, first: Seq<char>, second: Seq<char>, value: Value) -> Value {
    match member(v, first) {
        Some(inner) => if member(inner, second) is Some {
            with_member(v, first, with_member(inner, second, value))
        } else {
            v
        },
        None => v,
    }
}

/// What `member_index` finds.
pub proof fn lemma_member_index(members: Seq<(Seq<char>, Value)>, key: Seq<char>)
    ensures
        0 <= member_index(members, key) <= members.len(),
        forall|k: int| 0 <= k < member_index(members, key) ==> (#[trigger] members[k]).0 != key,
        member_index(members, key) < members.len() ==> members[member_index(members, key)].0
            == key,
    decreases members.len(),
{
    if members.len() > 0 && members[0].0 != key {
        let rest = members.skip(1);
        lemma_member_index(rest, key);
        assert forall|k: int| 0 <= k < member_index(members, key) implies (
        #[trigger] members[k]).0 != key by {
            if k > 0 {
                assert(members[k] == rest[k - 1]);
            }
        }
        if member_index(members, key) < members.len() {
            assert(members[member_index(members, key)] == rest[member_index(rest, key)]);
        }
    }
}

/// The position with the properties of `member_index` is `member_index`.
pub proof fn lemma_member_index_is(members: Seq<(Seq<char>, Value)>, key: Seq<char>, at: int)
    requires
        0 <= at <= members.len(),
        forall|k: int| 0 <= k < at ==> (#[trigger] members[k]).0 != key,
        at < members.len() ==> members[at].0 == key,
    ensures
        member_index(members, key) == at,
{
    lemma_member_index(members, key);
    let found = member_index(members, key);
    if found < at {
        assert(members[found].0 != key);
    } else if at < found {
        assert(members[at].0 != key);
    }
}

/// To set one member leaves the members of other names as they were.
pub proof fn lemma_with_member_other(v: Value, key: Seq<char>, value: Value, other: Seq<char>)
    requires
        other != key,
    ensures
        member(with_member(v, key, value), other) == member(v, other),
{
    if v is Object {
        let members = v->Object_0;
        let at = member_index(members, key);
        let there = member_index(members, other);
        lemma_member_index(members, key);
        lemma_member_index(members, other);
        let out = with_member(v, key, value)->Object_0;
        if at < members.len() {
            assert forall|k: int| 0 <= k < there implies (#[trigger] out[k]).0 != other by {
                assert(members[k].0 != other);
            }
        } else {
            assert forall|k: int| 0 <= k < there implies (#[trigger] out[k]).0 != other by {
                assert(members[k].0 != other);
            }
        }
        if there < members.len() {
            assert(out[there] == members[there]);
            lemma_member_index_is(out, other, there);
        } else {
            if at < members.len() {
                lemma_member_index_is(out, other, out.len() as int);
            } else {
                assert forall|k: int| 0 <= k < out.len() implies (#[trigger] out[k]).0
                    != other by {
                    if k < members.len() {
                        assert(members[k].0 != other);
                    }
                }
                lemma_member_index_is(out, other, out.len() as int);
            }
        }
    }
}

/// To set a nested member leaves the members of other names as they were.
pub proof fn lemma_with_nested_other(
    v: Value,
    first: Seq<char>,
    second: Seq<char>,
    value: Value,
    other: Seq<char>,
)
    requires
        other != first,
    ensures
        member(with_nested(v, first, second, value), other) == member(v, other),
{
    match member(v, first) {
        Some(inner) => {
            if member(inner, second) is Some {
                lemma_with_member_other(v, first, with_member(inner, second, value), other);
            }
        },
        None => {},
    }
}

/// The view of a list is the list of the views.
pub proof fn lemma_view_list(items: Vec<Record>)
    ensures
        Record::List(items)@ == Value::List(values(items@)),
{
    assert(Record::List(items)@->List_0 =~= values(items@));
}

/// The view of an object is the object of the views.
pub proof fn lemma_view_object(members: Vec<(String, Record)>)
    ensures
        Record::Object(members)@ == Value::Object(member_values(members@)),
{
    assert(Record::Object(members)@->Object_0 =~= member_values(members@));
}

/// Finds the first member named `key`.
pub fn find_member(members: &Vec<(String, Record)>, key: &str) -> (at: usize)
    ensures
        at == member_index(member_values(members@), key@),
        at <= members.len(),
{
    let ghost all = member_values(members@);
    let mut i: usize = 0;
    while i < members.len()
        invariant
            i <= members.len(),
            all == member_values(members@),
            forall|k: int| 0 <= k < i ==> (#[trigger] all[k]).0 != key@,
        decreases members.len() - i,
    {
        assert(all[i as int].0 == members@[i as int].0@);
        if same_text(members[i].0.as_str(), key) {
            proof {
                lemma_member_index_is(all, key@, i as int);
            }
            return i;
        }
        i += 1;
    }
    proof {
        lemma_member_index_is(all, key@, i as int);
    }
    i
}

impl Record {
    /// The member named `key` of an object.
    pub fn get(&self, key: &str) -> (r: Option<&Record>)
        ensures
            match r {
                Some(found) => member(self@, key@) == Some(found@),
                None => member(self@, key@) is None,
            },
    {
        match self {
            Record::Object(members) => {
                proof {
                    lemma_view_object(*members);
                }
                let at = find_member(members, key);
                if at < members.len() {
                    Some(&members[at].1)
                } else {
                    None
                }
            },
            _ => None,
        }
    }

    /// The member reached by following two names.
    pub fn get2(&self, first: &str, second: &str) -> (r: Option<&Record>)
        ensures
            match r {
                Some(found) => member_at(self@, seq![first@, second@]) == Some(found@),
                None => member_at(self@, seq![first@, second@]) is None,
            },
    {
        let ghost keys = seq![first@, second@];
        proof {
            reveal_with_fuel(member_at, 3);
            assert(keys.skip(1) =~= seq![second@]);
            assert(keys.skip(1).skip(1) =~= Seq::<Seq<char>>::empty());
        }
        match self.get(first) {
            Some(inner) => inner.get(second),
            None => None,
        }
    }

    /// The text of a text record.
    pub fn as_str(&self) -> (r: Option<&str>)
        ensures
            match r {
                Some(text) => self@ == Value::Text(text@),
                None => !(self@ is Text),
            },
    {
        match self {
            Record::Text(text) => Some(text.as_str()),
            _ => None,
        }
    }

    /// The number of a record that is a whole number from 0 to `u64::MAX`.
    pub fn as_u64(&self) -> (r: Option<u64>)
        ensures
            match r {
                Some(n) => self@ == Value::Whole(n as int),
                None => !(self@ matches Value::Whole(n) && 0 <= n <= u64::MAX),
            },
    {
        match self {
            Record::Whole(n) => {
                if 0 <= *n && *n <= u64::MAX as i128 {
                    Some(*n as u64)
                } else {
                    None
                }
            },
            _ => None,
        }
    }

    /// The number of a record that is a whole number in the range of `i64`.
    pub fn as_i64(&self) -> (r: Option<i64>)
        ensures
            match r {
                Some(n) => self@ == Value::Whole(n as int),
                None => !(self@ matches Value::Whole(n) && i64::MIN <= n <= i64::MAX),
            },
    {
        match self {
            Record::Whole(n) => {
                if i64::MIN as i128 <= *n && *n <= i64::MAX as i128 {
                    Some(*n as i64)
                } else {
                    None
                }
            },
            _ => None,
        }
    }

    /// The truth value of a record that is one.
    pub fn as_bool(&self) -> (r: Option<bool>)
        ensures
            match r {
                Some(b) => self@ == Value::Bool(b),
                None => !(self@ is Bool),
            },
    {
        match self {
            Record::Bool(b) => Some(*b),
            _ => None,
        }
    }

    /// The items of a list record.
    pub fn as_list(&self) -> (r: Option<&Vec<Record>>)
        ensures
            match r {
                Some(items) => self@ == Value::List(values(items@)),
                None => !(self@ is List),
            },
    {
        match self {
            Record::List(items) => {
                proof {
                    lemma_view_list(*items);
                }
                Some(items)
            },
            _ => None,
        }
    }

    /// Whether the record is null.
    pub fn is_null(&self) -> (r: bool)
        ensures
            r == (self@ is Null),
    {
        match self {
            Record::Null => true,
            _ => false,
        }
    }

    /// Whether the record is an object.
    pub fn is_object(&self) -> (r: bool)
        ensures
            r == (self@ is Object),
    {
        match self {
            Record::Object(_) => true,
            _ => false,
        }
    }

    /// A record with the same value.
    pub fn copy(&self) -> (r: Record)
        ensures
            r@ == self@,
        decreases self,
    {
        match self {
            Record::Null => Record::Null,
            Record::Bool(b) => Record::Bool(*b),
            Record::Whole(n) => Record::Whole(*n),
            Record::Decimal(text) => Record::Decimal(copy_text(text.as_str())),
            Record::Text(text) => Record::Text(copy_text(text.as_str())),
            Record::List(items) => {
                proof {
                    lemma_view_list(*items);
                }
                let out = copy_list(items);
                proof {
                    lemma_view_list(out);
                }
                Record::List(out)
            },
            Record::Object(members) => {
                proof {
                    lemma_view_object(*members);
                }
                let out = copy_members(members);
                proof {
                    lemma_view_object(out);
                }
                Record::Object(out)
            },
        }
    }

    /// Sets the member `key` of an object to `value`: in place where the object
    /// has a member of that name, at the end where it has none. A record that
    /// is no object comes back as it was.
    pub fn insert(self, key: &str, value: Record) -> (r: Record)
        ensures
            r@ == with_member(self@, key@, value@),
    {
        match self {
            Record::Object(members) => {
                let mut members = members;
                let ghost before = member_values(members@);
                proof {
                    lemma_view_object(members);
                }
                let at = find_member(&members, key);
                if at < members.len() {
                    members.remove(at);
                    members.insert(at, (copy_text(key), value));
                    assert(member_values(members@) =~= before.update(at as int, (key@, value@)));
                } else {
                    members.push((copy_text(key), value));
                    assert(member_values(members@) =~= before.push((key@, value@)));
                }
                proof {
                    lemma_view_object(members);
                }
                Record::Object(members)
            },
            other => other,
        }
    }

    /// Sets the member `second` of the member `first` to `value`, where both
    /// members are there; else nothing changes.
    pub fn replace_nested(self, first: &str, second: &str, value: Record) -> (r: Record)
        ensures
            r@ == with_nested(self@, first@, second@, value@),
    {
        match self {
            Record::Object(members) => {
                let mut members = members;
                let ghost before = member_values(members@);
                proof {
                    lemma_view_object(members);
                    lemma_member_index(before, first@);
                }
                let at = find_member(&members, first);
                if at < members.len() && members[at].1.get(second).is_some() {
                    let (name, inner) = members.remove(at);
                    assert(member_value((name, inner)) == before[at as int]);
                    let inner = inner.insert(second, value);
                    members.insert(at, (name, inner));
                    assert(member_values(members@) =~= before.update(at as int, (first@, inner@)));
                    proof {
                        lemma_view_object(members);
                    }
                    Record::Object(members)
                } else {
                    Record::Object(members)
                }
            },
            other => other,
        }
    }

    /// A text record.
    pub fn text(s: &str) -> (r: Record)
        ensures
            r@ == Value::Text(s@),
    {
        Record::Text(copy_text(s))
    }
}

/// A list of records with the same values.
pub fn copy_list(items: &Vec<Record>) -> (out: Vec<Record>)
    ensures
        values(out@) == values(items@),
    decreases items,
{
    let mut out: Vec<Record> = Vec::new();
    let mut i: usize = 0;
    while i < items.len()
        invariant
            i <= items.len(),
            values(out@) == values(items@).take(i as int),
        decreases items.len() - i,
    {
        let ghost before = values(out@);
        let item = items[i].copy();
        out.push(item);
        assert(values(out@) =~= before.push(item@));
        assert(values(items@).take(i + 1) =~= values(items@).take(i as int).push(
            items@[i as int]@,
        ));
        i += 1;
    }
    assert(values(items@).take(items@.len() as int) == values(items@));
    out
}

/// A list of members with the same names and values.
pub fn copy_members(members: &Vec<(String, Record)>) -> (out: Vec<(String, Record)>)
    ensures
        member_values(out@) == member_values(members@),
    decreases members,
{
    let mut out: Vec<(String, Record)> = Vec::new();
    let mut i: usize = 0;
    while i < members.len()
        invariant
            i <= members.len(),
            member_values(out@) == member_values(members@).take(i as int),
        decreases members.len() - i,
    {
        let ghost before = member_values(out@);
        let name = copy_text(members[i].0.as_str());
        let value = members[i].1.copy();
        out.push((name, value));
        assert(member_values(out@) =~= before.push((name@, value@)));
        assert(member_values(members@).take(i + 1) =~= member_values(members@).take(
            i as int,
        ).push((members@[i as int].0@, members@[i as int].1@)));
        i += 1;
    }
    assert(member_values(members@).take(members@.len() as int) == member_values(members@));
    out
}

} // verus!

//! An incoming message as the services read it: the top-level members of a
//! JSON object, each kept as the one kind of value a handler can use.
use vstd::prelude::*;
use crate::sync::SyncTarget;
use crate::text::text_eq;

verus! {

/// The value of one member of an incoming message.
pub enum Field {
    /// A JSON string.
    Text(String),
    /// A JSON number that is a non-negative integer within `u64`.
    Unsigned(u64),
    /// Anything else (null, boolean, negative or fractional number, array, object).
    Other,
}

/// An incoming message: its members in order, and its `target` member where
/// that decodes as a sync target.
pub struct Message {
    pub fields: Vec<(String, Field)>,
    pub target: Option<SyncTarget>,
}

/// The value of the first member named `key`, if any.
pub open spec fn field_value(fields: Seq<(String, Field)>, key: Seq<char>) -> Option<Field>
    decreases fields.len(),
{
    if fields.len() == 0 {
        None
    } else if fields[0].0@ == key {
        Some(fields[0].1)
    } else {
        field_value(fields.drop_first(), key)
    }
}

/// The member `key` read as a string (`json[key].as_str()`).
pub open spec fn text_field(m: Message, key: Seq<char>) -> Option<Seq<char>> {
    match field_value(m.fields@, key) {
        Some(Field::Text(s)) => Some(s@),
        _ => None,
    }
}

/// The member `key` read as an unsigned number (`json[key].as_u64()`).
pub open spec fn unsigned_field(m: Message, key: Seq<char>) -> Option<u64> {
    match field_value(m.fields@, key) {
        Some(Field::Unsigned(n)) => Some(n),
        _ => None,
    }
}

/// The message's `type` member.
pub open spec fn message_type(m: Message) -> Option<Seq<char>> {
    text_field(m, "type"@)
}

/// The view of an optional text.
pub open spec fn opt_text(o: Option<String>) -> Option<Seq<char>> {
    match o {
        Some(s) => Some(s@),
        None => None,
    }
}

impl Message {
    /// An empty message (what a text that is not a JSON object reads as).
    pub fn empty() -> (m: Message)
        ensures
            m.fields@.len() == 0,
            m.target is None,
    {
        Message { fields: Vec::new(), target: None }
    }

    fn find(&self, key: &str) -> (res: Option<usize>)
        ensures
            match res {
                Some(i) => i < self.fields.len() && field_value(self.fields@, key@) == Some(
                    self.fields@[i as int].1,
                ),
                None => field_value(self.fields@, key@) is None,
            },
    {
        let mut i: usize = 0;
        assert(self.fields@.skip(0) =~= self.fields@);
        while i < self.fields.len()
            invariant
                i <= self.fields.len(),
                field_value(self.fields@, key@) == field_value(self.fields@.skip(i as int), key@),
            decreases self.fields.len() - i,
        {
            let ghost rest = self.fields@.skip(i as int);
            assert(rest.drop_first() =~= self.fields@.skip(i + 1));
            if text_eq(self.fields[i].0.as_str(), key) {
                return Some(i);
            }
            i = i + 1;
        }
        None
    }

    /// The member `key` as a string, if it is one.
    pub fn text(&self, key: &str) -> (res: Option<String>)
        ensures
            opt_text(res) == text_field(*self, key@),
    {
        match self.find(key) {
            Some(i) => match &self.fields[i].1 {
                Field::Text(s) => Some(s.clone()),
                _ => None,
            },
            None => None,
        }
    }

    /// The member `key` as an unsigned number, if it is one.
    pub fn unsigned(&self, key: &str) -> (res: Option<u64>)
        ensures
            res == unsigned_field(*self, key@),
    {
        match self.find(key) {
            Some(i) => match &self.fields[i].1 {
                Field::Unsigned(n) => Some(*n),
                _ => None,
            },
            None => None,
        }
    }
}


/// A member of a JSON object as the services can read it: its name, its value
/// if that is a string, and its value if that is a number within `u64`.
pub type MemberView = (Seq<char>, Option<Seq<char>>, Option<u64>);

/// What `serde_json::from_str::<serde_json::Value>` makes of a text, read
/// member by member: `None` when the text is not JSON, no members when it is
/// JSON but not an object, else each top-level member in the parsed map's order.
pub uninterp spec fn json_members(text: Seq<char>) -> Option<Seq<MemberView>>;

pub open spec fn member_views(v: Seq<(String, Option<String>, Option<u64>)>) -> Seq<MemberView> {
    v.map_values(|x: (String, Option<String>, Option<u64>)| (x.0@, opt_text(x.1), x.2))
}

/// How a field of a message reads as a member.
pub open spec fn field_member(f: (String, Field)) -> MemberView {
    match f.1 {
        Field::Text(s) => (f.0@, Some(s@), None),
        Field::Unsigned(n) => (f.0@, None, Some(n)),
        Field::Other => (f.0@, None, None),
    }
}

/// Calls `serde_json::from_str::<serde_json::Value>` and reads each top-level
/// member with `Value::as_str` and `Value::as_u64`. Claimed: the result is
/// the named parse result, and no member is both a string and a number (a
/// JSON value is one or the other).
#[verifier::external_body]
fn parse_members(text: &str) -> (res: Option<Vec<(String, Option<String>, Option<u64>)>>)
    ensures
        res is Some == json_members(text@) is Some,
        res matches Some(v) ==> member_views(v@) == json_members(text@)->0,
        res matches Some(v) ==> forall|i: int| 0 <= i < v@.len() ==> !(v@[i].1 is Some && v@[i].2 is Some),
{
    serde_json::from_str::<serde_json::Value>(text).ok().map(|v| match v {
        serde_json::Value::Object(m) => {
            m.into_iter().map(|(k, x)| (k, x.as_str().map(String::from), x.as_u64())).collect()
        },
        _ => Vec::new(),
    })
}

/// Reads a client's text as a message: `None` when it is not JSON; else its
/// members as the services read them, and `target` as its decoded sync target.
pub fn read_message(text: &str, target: Option<SyncTarget>) -> (res: Option<Message>)
    ensures
        res is None == json_members(text@) is None,
        res matches Some(m) ==> m.fields@.map_values(|f: (String, Field)| field_member(f))
            == json_members(text@)->0 && m.target == target,
{
    let members = match parse_members(text) {
        Some(v) => v,
        None => { return None; },
    };
    let ghost all = member_views(members@);
    let mut fields: Vec<(String, Field)> = Vec::new();
    let mut rest = members;
    assert(all.skip(0) =~= all);
    while rest.len() > 0
        invariant
            rest@.len() <= all.len(),
            member_views(rest@) == all.skip(all.len() - rest@.len()),
            fields@.map_values(|f: (String, Field)| field_member(f)) == all.take(all.len() - rest@.len()),
            forall|i: int| 0 <= i < rest@.len() ==> !(rest@[i].1 is Some && rest@[i].2 is Some),
        decreases rest.len(),
    {
        let ghost k = all.len() - rest@.len();
        let ghost before = rest@;
        let ghost done = fields@;
        let (name, as_text, as_number) = rest.remove(0);
        assert(!(before[0].1 is Some && before[0].2 is Some));
        let field = match as_text {
            Some(t) => Field::Text(t),
            None => match as_number {
                Some(n) => Field::Unsigned(n),
                None => Field::Other,
            },
        };
        let ghost entry = (name, field);
        proof {
            assert(member_views(before)[0] == all[k]);
            assert(field_member(entry) == all[k]);
        }
        fields.push((name, field));
        proof {
            assert(rest@ =~= before.drop_first());
            assert forall|j: int| 0 <= j < rest@.len() implies member_views(rest@)[j] == all.skip(k + 1)[j] by {
                assert(member_views(rest@)[j] == member_views(before)[j + 1]);
                assert(member_views(before)[j + 1] == all.skip(k)[j + 1]);
            }
            assert(member_views(rest@) =~= all.skip(k + 1));
            assert(fields@ == done.push(entry));
            assert(all.take(k + 1) =~= all.take(k).push(all[k]));
            assert(fields@.map_values(|f: (String, Field)| field_member(f)) =~= done.map_values(
                |f: (String, Field)| field_member(f),
            ).push(field_member(entry)));
            assert(fields@.map_values(|f: (String, Field)| field_member(f)) =~= all.take(k + 1));
            assert forall|j: int| 0 <= j < rest@.len() implies !(rest@[j].1 is Some && rest@[j].2 is Some) by {
                assert(rest@[j] == before[j + 1]);
            }
        }
    }
    assert(all.take(all.len() as int) =~= all);
    Some(Message { fields, target })
}

} // verus!

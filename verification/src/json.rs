//! JSON values as plain data, with the lookups and edits that request bodies
//! need.
use vstd::prelude::*;
use crate::text;

verus! {

/// A JSON number: an integer where it fits in 64 bits, else its decimal text.
#[derive(Clone, Debug, PartialEq, Eq)]
pub enum JsonNumber {
    Unsigned(u64),
    Negative(i64),
    Real(String),
}

/// A JSON value. The members of an object stand in a fixed order; a lookup
/// takes the first member of its name.
#[derive(Debug, PartialEq, Eq)]
pub enum Json {
    Null,
    Bool(bool),
    Number(JsonNumber),
    Text(String),
    Array(Vec<Json>),
    Object(Vec<(String, Json)>),
}

/// What a JSON number says.
#[verifier::ext_equal]
pub enum NumberView {
    Unsigned(u64),
    Negative(i64),
    Real(Seq<char>),
}

/// What a JSON value says.
#[verifier::ext_equal]
pub enum JsonView {
    Null,
    Bool(bool),
    Number(NumberView),
    Text(Seq<char>),
    Array(Seq<JsonView>),
    Object(Seq<(Seq<char>, JsonView)>),
}

/// The members of an object, in order.
pub type Members = Seq<(Seq<char>, JsonView)>;

impl View for JsonNumber {
    type V = NumberView;

    open spec fn view(&self) -> NumberView {
        match self {
            JsonNumber::Unsigned(n) => NumberView::Unsigned(*n),
            JsonNumber::Negative(n) => NumberView::Negative(*n),
            JsonNumber::Real(t) => NumberView::Real(t@),
        }
    }
}

/// What a JSON value says, read from its parts.
pub open spec fn says(value: Json) -> JsonView
    decreases value,
{
    match value {
        Json::Null => JsonView::Null,
        Json::Bool(b) => JsonView::Bool(b),
        Json::Number(n) => JsonView::Number(n@),
        Json::Text(t) => JsonView::Text(t@),
        Json::Array(items) => JsonView::Array(
            Seq::new(
                items@.len(),
                |i: int|
                    if 0 <= i < items@.len() {
                        says(items@[i])
                    } else {
                        JsonView::Null
                    },
            ),
        ),
        Json::Object(members) => JsonView::Object(
            Seq::new(
                members@.len(),
                |i: int|
                    if 0 <= i < members@.len() {
                        (members@[i].0@, says(members@[i].1))
                    } else {
                        (Seq::empty(), JsonView::Null)
                    },
            ),
        ),
    }
}

impl View for Json {
    type V = JsonView;

    open spec fn view(&self) -> JsonView {
        says(*self)
    }
}

/// What the items of an array say.
pub open spec fn items_view(items: Seq<Json>) -> Seq<JsonView> {
    Seq::new(items.len(), |i: int| items[i]@)
}

/// What the members of an object say.
pub open spec fn members_view(members: Seq<(String, Json)>) -> Members {
    Seq::new(members.len(), |i: int| (members[i].0@, members[i].1@))
}

/// The view of an array is the sequence of its items' views.
pub broadcast proof fn array_view(items: Vec<Json>)
    ensures
        (#[trigger] Json::Array(items)@) == JsonView::Array(items_view(items@)),
{
    match Json::Array(items)@ {
        JsonView::Array(a) => {
            assert(a =~= items_view(items@));
        },
        _ => {},
    }
}

/// The view of an object is the sequence of its members' views.
pub broadcast proof fn object_view(members: Vec<(String, Json)>)
    ensures
        (#[trigger] Json::Object(members)@) == JsonView::Object(members_view(members@)),
{
    match Json::Object(members)@ {
        JsonView::Object(m) => {
            assert(m =~= members_view(members@));
        },
        _ => {},
    }
}

/// The value of the first member called `key`.
pub open spec fn find_member(members: Members, key: Seq<char>) -> Option<JsonView>
    decreases members.len(),
{
    if members.len() == 0 {
        None
    } else if members[0].0 == key {
        Some(members[0].1)
    } else {
        find_member(members.drop_first(), key)
    }
}

/// The members with `key` set to `value`: in place where it exists, else at the end.
pub open spec fn set_member(members: Members, key: Seq<char>, value: JsonView) -> Members
    decreases members.len(),
{
    if members.len() == 0 {
        seq![(key, value)]
    } else if members[0].0 == key {
        seq![(key, value)] + members.drop_first()
    } else {
        seq![members[0]] + set_member(members.drop_first(), key, value)
    }
}

/// The members without any called `key`.
pub open spec fn drop_member(members: Members, key: Seq<char>) -> Members
    decreases members.len(),
{
    if members.len() == 0 {
        members
    } else if members[0].0 == key {
        drop_member(members.drop_first(), key)
    } else {
        seq![members[0]] + drop_member(members.drop_first(), key)
    }
}

/// The members with `key` added as `value` where no member has that name.
pub open spec fn default_member(members: Members, key: Seq<char>, value: JsonView) -> Members {
    if find_member(members, key) is Some {
        members
    } else {
        set_member(members, key, value)
    }
}

/// No two members have the same name.
pub open spec fn distinct_names(members: Members) -> bool {
    forall|i: int, j: int|
        0 <= i < j < members.len() ==> (#[trigger] members[i]).0 != (#[trigger] members[j]).0
}

/// The member `key` of a value, if the value is an object that has it.
pub open spec fn field(value: JsonView, key: Seq<char>) -> Option<JsonView> {
    match value {
        JsonView::Object(members) => find_member(members, key),
        _ => None,
    }
}

/// The text of a value that is a string.
pub open spec fn text_of(value: Option<JsonView>) -> Option<Seq<char>> {
    match value {
        Some(JsonView::Text(t)) => Some(t),
        _ => None,
    }
}

/// The truth value of a value that is a boolean.
pub open spec fn bool_of(value: Option<JsonView>) -> Option<bool> {
    match value {
        Some(JsonView::Bool(b)) => Some(b),
        _ => None,
    }
}

/// The number of a value that is a non-negative integer of 64 bits.
pub open spec fn unsigned_of(value: Option<JsonView>) -> Option<u64> {
    match value {
        Some(JsonView::Number(NumberView::Unsigned(n))) => Some(n),
        _ => None,
    }
}

proof fn cons_index(head: (Seq<char>, JsonView), tail: Members)
    ensures
        (seq![head] + tail).drop_first() == tail,
        (seq![head] + tail)[0] == head,
{
    assert((seq![head] + tail).drop_first() =~= tail);
}

/// A member just set is found with the value it was set to.
pub proof fn set_member_is_found(members: Members, key: Seq<char>, value: JsonView)
    ensures
        find_member(set_member(members, key, value), key) == Some(value),
    decreases members.len(),
{
    if members.len() > 0 {
        if members[0].0 != key {
            cons_index(members[0], set_member(members.drop_first(), key, value));
            set_member_is_found(members.drop_first(), key, value);
        } else {
            cons_index((key, value), members.drop_first());
        }
    }
}

/// Setting one member leaves every other member as it was.
pub proof fn set_member_keeps_others(
    members: Members,
    key: Seq<char>,
    value: JsonView,
    other: Seq<char>,
)
    requires
        other != key,
    ensures
        find_member(set_member(members, key, value), other) == find_member(members, other),
    decreases members.len(),
{
    if members.len() > 0 {
        if members[0].0 != key {
            cons_index(members[0], set_member(members.drop_first(), key, value));
            set_member_keeps_others(members.drop_first(), key, value, other);
        } else {
            cons_index((key, value), members.drop_first());
        }
    } else {
        assert(seq![(key, value)].drop_first().len() == 0);
        assert(find_member(seq![(key, value)].drop_first(), other) is None);
    }
}

/// Setting a member to the value that it has changes nothing.
pub proof fn set_member_to_itself(members: Members, key: Seq<char>, value: JsonView)
    requires
        find_member(members, key) == Some(value),
    ensures
        set_member(members, key, value) == members,
    decreases members.len(),
{
    if members.len() > 0 {
        if members[0].0 == key {
            assert(seq![(key, value)] + members.drop_first() =~= members);
        } else {
            set_member_to_itself(members.drop_first(), key, value);
            assert(seq![members[0]] + members.drop_first() =~= members);
        }
    }
}

/// Setting a member twice is setting it to the second value.
pub proof fn set_member_twice(members: Members, key: Seq<char>, first: JsonView, second: JsonView)
    ensures
        set_member(set_member(members, key, first), key, second) == set_member(
            members,
            key,
            second,
        ),
    decreases members.len(),
{
    let once = set_member(members, key, first);
    if members.len() > 0 && members[0].0 != key {
        set_member_twice(members.drop_first(), key, first, second);
        assert(once.drop_first() =~= set_member(members.drop_first(), key, first));
        assert(once[0] == members[0]);
    } else if members.len() > 0 {
        assert(once.drop_first() =~= members.drop_first());
        assert(once[0] == (key, first));
    } else {
        assert(once.drop_first() =~= Seq::empty());
        assert(set_member(once, key, second) =~= seq![(key, second)]);
    }
}

/// A dropped member is not found.
pub proof fn drop_member_is_gone(members: Members, key: Seq<char>)
    ensures
        find_member(drop_member(members, key), key) is None,
    decreases members.len(),
{
    if members.len() > 0 {
        drop_member_is_gone(members.drop_first(), key);
        if members[0].0 != key {
            cons_index(members[0], drop_member(members.drop_first(), key));
        }
    }
}

/// Dropping one member leaves every other member as it was.
pub proof fn drop_member_keeps_others(members: Members, key: Seq<char>, other: Seq<char>)
    requires
        other != key,
    ensures
        find_member(drop_member(members, key), other) == find_member(members, other),
    decreases members.len(),
{
    if members.len() > 0 {
        drop_member_keeps_others(members.drop_first(), key, other);
        if members[0].0 != key {
            cons_index(members[0], drop_member(members.drop_first(), key));
        }
    }
}

/// Neither setting nor dropping a member gives two members the same name.
pub proof fn edits_keep_names_distinct(members: Members, key: Seq<char>, value: JsonView)
    requires
        distinct_names(members),
    ensures
        distinct_names(set_member(members, key, value)),
        distinct_names(drop_member(members, key)),
    decreases members.len(),
{
    if members.len() == 0 {
        assert(seq![(key, value)].len() == 1);
    } else {
        let rest = members.drop_first();
        assert forall|i: int, j: int| 0 <= i < j < rest.len() implies (#[trigger] rest[i]).0 != (
        #[trigger] rest[j]).0 by {
            assert(rest[i] == members[i + 1] && rest[j] == members[j + 1]);
        }
        edits_keep_names_distinct(rest, key, value);
        assert forall|j: int| 0 <= j < rest.len() implies (#[trigger] rest[j]).0 != members[0].0 by {
            assert(rest[j] == members[j + 1]);
        }
        if members[0].0 == key {
            cons_distinct((key, value), rest);
        } else {
            names_come_from(rest, key, value);
            cons_distinct(members[0], set_member(rest, key, value));
            cons_distinct(members[0], drop_member(rest, key));
        }
    }
}

proof fn cons_distinct(head: (Seq<char>, JsonView), tail: Members)
    requires
        distinct_names(tail),
        forall|j: int| 0 <= j < tail.len() ==> (#[trigger] tail[j]).0 != head.0,
    ensures
        distinct_names(seq![head] + tail),
{
    let whole = seq![head] + tail;
    assert forall|i: int, j: int| 0 <= i < j < whole.len() implies (#[trigger] whole[i]).0 != (
    #[trigger] whole[j]).0 by {
        assert(whole[j] == tail[j - 1]);
        if i > 0 {
            assert(whole[i] == tail[i - 1]);
        }
    }
}

/// The names after an edit are those before it, and at most the edited one.
proof fn names_come_from(members: Members, key: Seq<char>, value: JsonView)
    ensures
        forall|j: int|
            0 <= j < set_member(members, key, value).len() ==> (#[trigger] set_member(
                members,
                key,
                value,
            )[j]).0 == key || exists|i: int|
                0 <= i < members.len() && (#[trigger] members[i]).0 == set_member(
                    members,
                    key,
                    value,
                )[j].0,
        forall|j: int|
            0 <= j < drop_member(members, key).len() ==> exists|i: int|
                0 <= i < members.len() && (#[trigger] members[i]) == (#[trigger] drop_member(
                    members,
                    key,
                )[j]),
    decreases members.len(),
{
    if members.len() > 0 {
        let rest = members.drop_first();
        names_come_from(rest, key, value);
        let set = set_member(members, key, value);
        let rest_set = set_member(rest, key, value);
        assert forall|j: int| 0 <= j < set.len() implies (#[trigger] set[j]).0 == key || exists|i: int|
            0 <= i < members.len() && (#[trigger] members[i]).0 == set[j].0 by {
            if members[0].0 == key {
                if j > 0 {
                    assert(set[j] == rest[j - 1]);
                    assert(members[j] == set[j]);
                }
            } else if j == 0 {
                assert(members[0] == set[0]);
            } else {
                assert(set[j] == rest_set[j - 1]);
                if rest_set[j - 1].0 != key {
                    let i = choose|i: int|
                        0 <= i < rest.len() && (#[trigger] rest[i]).0 == rest_set[j - 1].0;
                    assert(members[i + 1] == rest[i]);
                }
            }
        }
        let dropped = drop_member(members, key);
        let rest_dropped = drop_member(rest, key);
        assert forall|j: int| 0 <= j < dropped.len() implies exists|i: int|
            0 <= i < members.len() && (#[trigger] members[i]) == (#[trigger] dropped[j]) by {
            let k = if members[0].0 == key { j } else { j - 1 };
            if k >= 0 {
                assert(dropped[j] == rest_dropped[k]);
                let i = choose|i: int|
                    0 <= i < rest.len() && (#[trigger] rest[i]) == rest_dropped[k];
                assert(members[i + 1] == rest[i]);
            } else {
                assert(dropped[0] == members[0]);
            }
        }
    }
}

/// Where the first member called `key` stands, find and set speak of that place.
proof fn member_at(members: Members, key: Seq<char>, value: JsonView, at: int)
    requires
        0 <= at < members.len(),
        members[at].0 == key,
        forall|j: int| 0 <= j < at ==> (#[trigger] members[j]).0 != key,
    ensures
        find_member(members, key) == Some(members[at].1),
        set_member(members, key, value) == members.update(at, (key, value)),
    decreases members.len(),
{
    if at > 0 {
        let rest = members.drop_first();
        assert forall|j: int| 0 <= j < at - 1 implies (#[trigger] rest[j]).0 != key by {
            assert(rest[j] == members[j + 1]);
        }
        member_at(rest, key, value, at - 1);
        assert(seq![members[0]] + rest.update(at - 1, (key, value)) =~= members.update(
            at,
            (key, value),
        ));
    } else {
        assert(seq![(key, value)] + members.drop_first() =~= members.update(0, (key, value)));
    }
}

/// Without a member called `key`, find fails and set appends.
proof fn member_absent(members: Members, key: Seq<char>, value: JsonView)
    requires
        forall|j: int| 0 <= j < members.len() ==> (#[trigger] members[j]).0 != key,
    ensures
        find_member(members, key) is None,
        set_member(members, key, value) == members.push((key, value)),
    decreases members.len(),
{
    if members.len() > 0 {
        let rest = members.drop_first();
        assert forall|j: int| 0 <= j < rest.len() implies (#[trigger] rest[j]).0 != key by {
            assert(rest[j] == members[j + 1]);
        }
        member_absent(rest, key, value);
        assert(seq![members[0]] + rest.push((key, value)) =~= members.push((key, value)));
    } else {
        assert(members.push((key, value)) =~= seq![(key, value)]);
    }
}

/// A lookup gives the value of the first member of its name.
pub proof fn lookup_takes_the_first_member(members: Members, key: Seq<char>, at: int)
    requires
        0 <= at < members.len(),
        members[at].0 == key,
        forall|j: int| 0 <= j < at ==> (#[trigger] members[j]).0 != key,
    ensures
        find_member(members, key) == Some(members[at].1),
{
    member_at(members, key, JsonView::Null, at);
}

/// Without a member of its name a lookup finds nothing.
pub proof fn absent_member_is_not_found(members: Members, key: Seq<char>)
    requires
        forall|j: int| 0 <= j < members.len() ==> (#[trigger] members[j]).0 != key,
    ensures
        find_member(members, key) is None,
{
    member_absent(members, key, JsonView::Null);
}

/// Each reader takes values of its own kind alone, and takes what they say.
pub proof fn readers_take_their_own_kind(value: JsonView, key: Seq<char>)
    ensures
        text_of(Some(value)) is Some <==> value is Text,
        value is Text ==> text_of(Some(value)) == Some(value->Text_0),
        bool_of(Some(value)) is Some <==> value is Bool,
        value is Bool ==> bool_of(Some(value)) == Some(value->Bool_0),
        unsigned_of(Some(value)) is Some <==> value is Number && value->Number_0 is Unsigned,
        value is Number && value->Number_0 is Unsigned ==> unsigned_of(Some(value)) == Some(
            value->Number_0->Unsigned_0,
        ),
        text_of(None) is None && bool_of(None) is None && unsigned_of(None) is None,
        value is Object ==> field(value, key) == find_member(value->Object_0, key),
        !(value is Object) ==> field(value, key) is None,
{
}

/// Setting a member adds one where there was none, and otherwise changes that one
/// in its place.
pub proof fn setting_changes_one_place(members: Members, key: Seq<char>, value: JsonView, at: int)
    ensures
        (forall|j: int| 0 <= j < members.len() ==> (#[trigger] members[j]).0 != key)
            ==> set_member(members, key, value) == members.push((key, value)),
        0 <= at < members.len() && members[at].0 == key && (forall|j: int|
            0 <= j < at ==> (#[trigger] members[j]).0 != key) ==> set_member(members, key, value)
            == members.update(at, (key, value)),
{
    if forall|j: int| 0 <= j < members.len() ==> (#[trigger] members[j]).0 != key {
        member_absent(members, key, value);
    }
    if 0 <= at < members.len() && members[at].0 == key && (forall|j: int|
        0 <= j < at ==> (#[trigger] members[j]).0 != key) {
        member_at(members, key, value, at);
    }
}

/// Dropping a member keeps the others in their order.
pub proof fn dropping_keeps_the_others_in_order(members: Members, key: Seq<char>)
    ensures
        drop_member(members, key) == members.filter(|m: (Seq<char>, JsonView)| m.0 != key),
    decreases members.len(),
{
    let keep = |m: (Seq<char>, JsonView)| m.0 != key;
    reveal(Seq::filter);
    if members.len() > 0 {
        let n = members.len() - 1;
        dropping_keeps_the_others_in_order(members.drop_last(), key);
        drop_member_split(members, key, n);
        assert(members.take(n + 1) =~= members);
        assert(members.take(n) =~= members.drop_last());
        assert(members.last() == members[n]);
    } else {
        assert(drop_member(members, key) =~= members.filter(keep));
    }
}

/// Where the first member called `key` stands.
fn member_index(members: &Vec<(String, Json)>, key: &str) -> (r: Option<usize>)
    ensures
        match r {
            Some(at) => {
                &&& at < members.len()
                &&& members@[at as int].0@ == key@
                &&& forall|j: int| 0 <= j < at ==> (#[trigger] members@[j]).0@ != key@
            },
            None => forall|j: int| 0 <= j < members.len() ==> (#[trigger] members@[j]).0@ != key@,
        },
{
    let mut i: usize = 0;
    while i < members.len()
        invariant
            i <= members.len(),
            forall|j: int| 0 <= j < i ==> (#[trigger] members@[j]).0@ != key@,
        decreases members.len() - i,
    {
        if text::str_eq(members[i].0.as_str(), key) {
            return Some(i);
        }
        i = i + 1;
    }
    None
}

/// The value of the first member called `key`.
pub fn get_member<'a>(members: &'a Vec<(String, Json)>, key: &str) -> (r: Option<&'a Json>)
    ensures
        match r {
            Some(j) => find_member(members_view(members@), key@) == Some(j@),
            None => find_member(members_view(members@), key@) is None,
        },
{
    let ghost m = members_view(members@);
    match member_index(members, key) {
        Some(at) => {
            proof {
                assert forall|j: int| 0 <= j < at implies (#[trigger] m[j]).0 != key@ by {
                    assert(m[j].0 == members@[j].0@);
                }
                member_at(m, key@, JsonView::Null, at as int);
            }
            Some(&members[at].1)
        },
        None => {
            proof {
                assert forall|j: int| 0 <= j < m.len() implies (#[trigger] m[j]).0 != key@ by {
                    assert(m[j].0 == members@[j].0@);
                }
                member_absent(m, key@, JsonView::Null);
            }
            None
        },
    }
}

/// The value of the first member called `key`, to be changed in place.
pub fn get_member_mut<'a>(members: &'a mut Vec<(String, Json)>, key: &str) -> (r: Option<
    &'a mut Json,
>)
    ensures
        match r {
            Some(value) => {
                &&& find_member(members_view(old(members)@), key@) == Some((*value)@)
                &&& members_view(final(members)@) == set_member(
                    members_view(old(members)@),
                    key@,
                    (*final(value))@,
                )
            },
            None => {
                &&& find_member(members_view(old(members)@), key@) is None
                &&& final(members)@ == old(members)@
            },
        },
{
    let ghost m = members_view(members@);
    match member_index(members, key) {
        Some(at) => {
            let ghost was = members@;
            proof {
                assert forall|j: int| 0 <= j < at implies (#[trigger] m[j]).0 != key@ by {
                    assert(m[j].0 == members@[j].0@);
                }
                assert forall|v: JsonView| #[trigger]
                    set_member(m, key@, v) == m.update(at as int, (key@, v)) by {
                    member_at(m, key@, v, at as int);
                }
                member_at(m, key@, JsonView::Null, at as int);
                assert forall|v: Json| #[trigger]
                    members_view(was.update(at as int, (was[at as int].0, v))) == m.update(
                        at as int,
                        (key@, v@),
                    ) by {
                    assert(members_view(was.update(at as int, (was[at as int].0, v))) =~= m.update(
                        at as int,
                        (key@, v@),
                    ));
                }
            }
            Some(&mut members[at].1)
        },
        None => {
            proof {
                assert forall|j: int| 0 <= j < m.len() implies (#[trigger] m[j]).0 != key@ by {
                    assert(m[j].0 == members@[j].0@);
                }
                member_absent(m, key@, JsonView::Null);
            }
            None
        },
    }
}

/// Sets the member `key` to `value`.
pub fn insert_member(members: &mut Vec<(String, Json)>, key: &str, value: Json)
    ensures
        members_view(final(members)@) == set_member(members_view(old(members)@), key@, value@),
{
    let ghost m = members_view(members@);
    match member_index(members, key) {
        Some(at) => {
            proof {
                assert forall|j: int| 0 <= j < at implies (#[trigger] m[j]).0 != key@ by {
                    assert(m[j].0 == members@[j].0@);
                }
                member_at(m, key@, value@, at as int);
            }
            let entry = (text::copy_str(key), value);
            members.set(at, entry);
            proof {
                assert(members_view(members@) =~= m.update(at as int, (key@, value@)));
            }
        },
        None => {
            proof {
                assert forall|j: int| 0 <= j < m.len() implies (#[trigger] m[j]).0 != key@ by {
                    assert(m[j].0 == members@[j].0@);
                }
                member_absent(m, key@, value@);
            }
            members.push((text::copy_str(key), value));
            proof {
                assert(members_view(members@) =~= m.push((key@, value@)));
            }
        },
    }
}

/// Adds the member `key` as `value` unless the name is taken.
pub fn insert_default(members: &mut Vec<(String, Json)>, key: &str, value: Json)
    ensures
        members_view(final(members)@) == default_member(members_view(old(members)@), key@, value@),
{
    if get_member(members, key).is_none() {
        insert_member(members, key, value);
    }
}

proof fn drop_member_split(members: Members, key: Seq<char>, at: int)
    requires
        0 <= at < members.len(),
    ensures
        drop_member(members.take(at + 1), key) == (if members[at].0 == key {
            drop_member(members.take(at), key)
        } else {
            drop_member(members.take(at), key).push(members[at])
        }),
    decreases members.len(),
{
    let whole = members.take(at + 1);
    if at == 0 {
        assert(whole.drop_first() =~= Seq::empty());
        assert(members.take(0) =~= Seq::empty());
        assert(drop_member(whole.drop_first(), key) =~= Seq::empty());
        assert(drop_member(whole, key) =~= (if members[0].0 == key {
            Seq::empty()
        } else {
            seq![members[0]]
        }));
        assert(Seq::<(Seq<char>, JsonView)>::empty().push(members[0]) =~= seq![members[0]]);
    } else {
        let rest = members.drop_first();
        drop_member_split(rest, key, at - 1);
        assert(whole.drop_first() =~= rest.take(at));
        assert(members.take(at).drop_first() =~= rest.take(at - 1));
        assert(rest[at - 1] == members[at]);
        if members[at].0 != key {
            assert((seq![members[0]] + drop_member(rest.take(at - 1), key)).push(members[at])
                =~= seq![members[0]] + drop_member(rest.take(at - 1), key).push(members[at]));
        }
    }
}

/// Removes every member called `key`.
pub fn remove_member(members: &mut Vec<(String, Json)>, key: &str)
    ensures
        members_view(final(members)@) == drop_member(members_view(old(members)@), key@),
{
    let ghost m = members_view(members@);
    let ghost mut done: int = 0;
    let mut i: usize = 0;
    proof {
        assert(drop_member(m.take(0), key@) =~= Seq::empty());
        assert(m.skip(0) =~= m);
        assert(members_view(members@) =~= drop_member(m.take(0), key@) + m.skip(0));
    }
    while i < members.len()
        invariant
            0 <= done <= m.len(),
            members_view(members@) == drop_member(m.take(done), key@) + m.skip(done),
            i == drop_member(m.take(done), key@).len(),
            members.len() == i + m.len() - done,
        decreases m.len() - done,
    {
        let ghost kept = drop_member(m.take(done), key@);
        let ghost was = members@;
        proof {
            assert(members_view(members@)[i as int] == m[done]);
            drop_member_split(m, key@, done);
        }
        if text::str_eq(members[i].0.as_str(), key) {
            let _ = members.remove(i);
            proof {
                assert(members_view(members@) =~= members_view(was).remove(i as int));
                assert((kept + m.skip(done)).remove(i as int) =~= kept + m.skip(done + 1));
            }
        } else {
            i = i + 1;
            proof {
                assert(kept + m.skip(done) =~= kept.push(m[done]) + m.skip(done + 1));
            }
        }
        proof {
            done = done + 1;
        }
    }
    proof {
        assert(m.take(m.len() as int) =~= m);
        assert(m.skip(m.len() as int) =~= Seq::empty());
        assert(drop_member(m, key@) + Seq::<(Seq<char>, JsonView)>::empty() =~= drop_member(m, key@));
    }
}

impl Clone for Json {
    fn clone(&self) -> (r: Self)
        ensures
            r@ == self@,
    {
        self.copy()
    }
}

impl Json {
    /// An equal copy.
    pub fn copy(&self) -> (r: Json)
        ensures
            r@ == self@,
        decreases self,
    {
        broadcast use {array_view, object_view};

        match self {
            Json::Null => Json::Null,
            Json::Bool(b) => Json::Bool(*b),
            Json::Number(JsonNumber::Unsigned(n)) => Json::Number(JsonNumber::Unsigned(*n)),
            Json::Number(JsonNumber::Negative(n)) => Json::Number(JsonNumber::Negative(*n)),
            Json::Number(JsonNumber::Real(t)) => Json::Number(
                JsonNumber::Real(text::copy_str(t.as_str())),
            ),
            Json::Text(t) => Json::Text(text::copy_str(t.as_str())),
            Json::Array(items) => {
                let mut out: Vec<Json> = Vec::new();
                let mut i: usize = 0;
                while i < items.len()
                    invariant
                        i <= items.len(),
                        out.len() == i,
                        *self == Json::Array(*items),
                        forall|j: int| 0 <= j < i ==> (#[trigger] out@[j])@ == items@[j]@,
                    decreases items.len() - i,
                {
                    assert(decreases_to!(*items => items@[i as int]));
                    assert(decreases_to!(*self => self->Array_0));
                    out.push(items[i].copy());
                    i = i + 1;
                }
                proof {
                    assert(items_view(out@) =~= items_view(items@));
                }
                Json::Array(out)
            },
            Json::Object(members) => {
                let mut out: Vec<(String, Json)> = Vec::new();
                let mut i: usize = 0;
                while i < members.len()
                    invariant
                        i <= members.len(),
                        out.len() == i,
                        *self == Json::Object(*members),
                        forall|j: int|
                            0 <= j < i ==> (#[trigger] out@[j]).0@ == members@[j].0@ && out@[j].1@
                                == members@[j].1@,
                    decreases members.len() - i,
                {
                    assert(decreases_to!(*members => members@[i as int]));
                    assert(decreases_to!(*self => self->Object_0));
                    out.push((text::copy_str(members[i].0.as_str()), members[i].1.copy()));
                    i = i + 1;
                }
                proof {
                    assert(members_view(out@) =~= members_view(members@));
                }
                Json::Object(out)
            },
        }
    }

    /// The member `key`, if this is an object that has it.
    pub fn get(&self, key: &str) -> (r: Option<&Json>)
        ensures
            match r {
                Some(j) => field(self@, key@) == Some(j@),
                None => field(self@, key@) is None,
            },
    {
        broadcast use object_view;

        match self {
            Json::Object(members) => get_member(members, key),
            _ => None,
        }
    }

    /// The text of a string.
    pub fn as_str(&self) -> (r: Option<&str>)
        ensures
            match r {
                Some(t) => text_of(Some(self@)) == Some(t@),
                None => text_of(Some(self@)) is None,
            },
    {
        match self {
            Json::Text(t) => Some(t.as_str()),
            _ => None,
        }
    }

    /// The truth value of a boolean.
    pub fn as_bool(&self) -> (r: Option<bool>)
        ensures
            r == bool_of(Some(self@)),
    {
        match self {
            Json::Bool(b) => Some(*b),
            _ => None,
        }
    }

    /// The number of a non-negative integer of 64 bits.
    pub fn as_u64(&self) -> (r: Option<u64>)
        ensures
            r == unsigned_of(Some(self@)),
    {
        match self {
            Json::Number(JsonNumber::Unsigned(n)) => Some(*n),
            _ => None,
        }
    }
}

/// `serde_json::Value`, carried from a parse to its conversion.
#[verifier::external_type_specification]
#[verifier::external_body]
pub struct ExValue(serde_json::Value);

/// What `serde_json::from_str` reads from a text; `None` where it reports an error.
pub uninterp spec fn json_in_text(text: Seq<char>) -> Option<JsonView>;

/// What `serde_json::from_slice` reads from bytes; where it reports an error,
/// the text of that error.
pub uninterp spec fn json_in_bytes(bytes: Seq<u8>) -> Result<JsonView, Seq<char>>;

/// The plain form of a `serde_json::Value`, variant for variant. Nothing is
/// claimed of it here; the two parse functions below claim their result as a
/// whole.
#[verifier::external_body]
fn plain_value(value: serde_json::Value) -> (r: Json) {
    match value {
        serde_json::Value::Null => Json::Null,
        serde_json::Value::Bool(b) => Json::Bool(b),
        serde_json::Value::Number(n) => Json::Number(
            match (n.as_u64(), n.as_i64()) {
                (Some(u), _) => JsonNumber::Unsigned(u),
                (None, Some(i)) => JsonNumber::Negative(i),
                (None, None) => JsonNumber::Real(n.to_string()),
            },
        ),
        serde_json::Value::String(t) => Json::Text(t),
        serde_json::Value::Array(a) => Json::Array(a.into_iter().map(plain_value).collect()),
        serde_json::Value::Object(m) => Json::Object(m.into_iter().map(|(k, v)| (k, plain_value(v))).collect()),
    }
}

/// Calls `serde_json::from_str`. The claim: what it reads depends on the text
/// alone, and `json_in_text` names it.
#[verifier::external_body]
pub(crate) fn parse_text(text: &str) -> (r: Option<Json>)
    ensures
        match r {
            Some(value) => json_in_text(text@) == Some(value@),
            None => json_in_text(text@) is None,
        },
{
    serde_json::from_str::<serde_json::Value>(text).ok().map(plain_value)
}

/// Calls `serde_json::from_slice`. The claim: what it reads, or the text of the
/// error that it reports, depends on the bytes alone, and `json_in_bytes` names it.
#[verifier::external_body]
pub(crate) fn parse_bytes(bytes: &[u8]) -> (r: Result<Json, String>)
    ensures
        match r {
            Ok(value) => json_in_bytes(bytes@) == Ok::<JsonView, Seq<char>>(value@),
            Err(message) => json_in_bytes(bytes@) == Err::<JsonView, Seq<char>>(message@),
        },
{
    match serde_json::from_slice::<serde_json::Value>(bytes) {
        Ok(value) => Ok(plain_value(value)),
        Err(error) => Err(error.to_string()),
    }
}

/// The text in which `serde_json` writes a value.
pub uninterp spec fn json_text(value: JsonView) -> Seq<char>;

/// The `serde_json::Value` of a plain value, variant for variant. Nothing is
/// claimed of it here; `to_text` below claims its result as a whole.
#[verifier::external_body]
fn outside_value(value: &Json) -> (r: serde_json::Value) {
    match value {
        Json::Null => serde_json::Value::Null,
        Json::Bool(b) => serde_json::Value::Bool(*b),
        Json::Number(JsonNumber::Unsigned(n)) => serde_json::Value::from(*n),
        Json::Number(JsonNumber::Negative(n)) => serde_json::Value::from(*n),
        Json::Number(JsonNumber::Real(t)) => serde_json::from_str(t).unwrap_or_default(),
        Json::Text(t) => serde_json::Value::from(t.as_str()),
        Json::Array(items) => items.iter().map(outside_value).collect(),
        Json::Object(members) => members.iter().map(|(k, v)| (k.clone(), outside_value(v))).collect(),
    }
}

/// Calls `to_string` on the value as a `serde_json::Value`. The claim: the text
/// depends on what the value says alone, and `json_text` names it.
#[verifier::external_body]
pub(crate) fn to_text(value: &Json) -> (r: String)
    ensures
        r@ == json_text(value@),
{
    outside_value(value).to_string()
}

} // verus!

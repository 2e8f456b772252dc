//! JSON values as CloudKit sends and takes them.
//!
//! [`Json`] owns a value; [`JsonView`] is the value it stands for. Contracts speak
//! of views, so two values that were built apart but say the same are the same.
use vstd::prelude::*;

use crate::text::str_eq;

verus! {

/// A JSON number: an integer where the text was one, otherwise the IEEE-754
/// double that the text denotes, by its bits.
#[derive(Debug, Clone, Copy, PartialEq, Eq, Structural)]
pub enum JsonNumber {
    /// An integer that is not negative.
    Unsigned(u64),
    /// A negative integer.
    Negative(i64),
    /// Any other number: the bits of a double.
    Float(u64),
}

/// A JSON value. An object keeps its members in order; a name stands once in it.
#[derive(Debug)]
pub enum Json {
    Null,
    Bool(bool),
    Number(JsonNumber),
    Text(String),
    List(Vec<Json>),
    Object(Vec<(String, Json)>),
}

/// What a [`Json`] stands for.
pub enum JsonView {
    Null,
    Bool(bool),
    Number(JsonNumber),
    Text(Seq<char>),
    List(Seq<JsonView>),
    Object(Seq<(Seq<char>, JsonView)>),
}

/// The views of a list of values.
pub open spec fn list_views(list: Seq<Json>) -> Seq<JsonView>
    decreases list,
{
    if list.len() == 0 {
        Seq::empty()
    } else {
        list_views(list.drop_last()).push(json_view(list.last()))
    }
}

/// The views of the members of an object.
pub open spec fn member_views(members: Seq<(String, Json)>) -> Seq<(Seq<char>, JsonView)>
    decreases members,
{
    if members.len() == 0 {
        Seq::empty()
    } else {
        member_views(members.drop_last()).push((members.last().0@, json_view(members.last().1)))
    }
}

/// What a value stands for.
pub open spec fn json_view(json: Json) -> JsonView
    decreases json,
{
    match json {
        Json::Null => JsonView::Null,
        Json::Bool(b) => JsonView::Bool(b),
        Json::Number(n) => JsonView::Number(n),
        Json::Text(s) => JsonView::Text(s@),
        Json::List(list) => JsonView::List(list_views(list@)),
        Json::Object(members) => JsonView::Object(member_views(members@)),
    }
}

impl View for Json {
    type V = JsonView;

    open spec fn view(&self) -> JsonView {
        json_view(*self)
    }
}

/// The value of the first member called `name`.
pub open spec fn lookup(members: Seq<(Seq<char>, JsonView)>, name: Seq<char>) -> Option<JsonView>
    decreases members.len(),
{
    if members.len() == 0 {
        None
    } else if members[0].0 == name {
        Some(members[0].1)
    } else {
        lookup(members.drop_first(), name)
    }
}

/// The member `name` of an object; nothing where the value is not an object.
pub open spec fn member(json: JsonView, name: Seq<char>) -> Option<JsonView> {
    match json {
        JsonView::Object(members) => lookup(members, name),
        _ => None,
    }
}

/// The member `name` of a value that may be absent.
pub open spec fn member_of(json: Option<JsonView>, name: Seq<char>) -> Option<JsonView> {
    match json {
        Some(json) => member(json, name),
        None => None,
    }
}

/// The text that a value is.
pub open spec fn text_of(json: Option<JsonView>) -> Option<Seq<char>> {
    match json {
        Some(JsonView::Text(s)) => Some(s),
        _ => None,
    }
}

/// The truth value that a value is.
pub open spec fn bool_of(json: Option<JsonView>) -> Option<bool> {
    match json {
        Some(JsonView::Bool(b)) => Some(b),
        _ => None,
    }
}

/// The number that a value is.
pub open spec fn number_of(json: Option<JsonView>) -> Option<JsonNumber> {
    match json {
        Some(JsonView::Number(n)) => Some(n),
        _ => None,
    }
}

/// The list that a value is.
pub open spec fn list_of(json: Option<JsonView>) -> Option<Seq<JsonView>> {
    match json {
        Some(JsonView::List(list)) => Some(list),
        _ => None,
    }
}

/// The integer that a number is, where it is one and is not negative.
pub open spec fn unsigned_value(n: JsonNumber) -> Option<u64> {
    match n {
        JsonNumber::Unsigned(n) => Some(n),
        _ => None,
    }
}

/// The integer that a number is, where it is one and fits in `i64`.
pub open spec fn signed_value(n: JsonNumber) -> Option<i64> {
    match n {
        JsonNumber::Unsigned(n) => if n <= i64::MAX {
            Some(n as i64)
        } else {
            None
        },
        JsonNumber::Negative(n) => Some(n),
        JsonNumber::Float(_) => None,
    }
}

/// The integer that a value is, where it is one and is not negative.
pub open spec fn unsigned_of(json: Option<JsonView>) -> Option<u64> {
    match number_of(json) {
        Some(n) => unsigned_value(n),
        None => None,
    }
}

/// The integer that a value is, where it is one and fits in `i64`.
pub open spec fn signed_of(json: Option<JsonView>) -> Option<i64> {
    match number_of(json) {
        Some(n) => signed_value(n),
        None => None,
    }
}

/// The `value` member of the field `name`: where CloudKit keeps a field's content.
pub open spec fn field(fields: JsonView, name: Seq<char>) -> Option<JsonView> {
    member_of(member(fields, name), "value"@)
}

/// The view of a value that may be absent.
pub open spec fn option_json_view(json: Option<&Json>) -> Option<JsonView> {
    match json {
        Some(json) => Some(json@),
        None => None,
    }
}

/// The view of a borrowed text that may be absent.
pub open spec fn option_str_view(s: Option<&str>) -> Option<Seq<char>> {
    match s {
        Some(s) => Some(s@),
        None => None,
    }
}

/// Each item of a list of values is viewed in its place.
pub broadcast proof fn lemma_list_views(list: Seq<Json>)
    ensures
        (#[trigger] list_views(list)).len() == list.len(),
        forall|i: int|
            0 <= i < list.len() ==> #[trigger] list_views(list)[i] == json_view(list[i]),
    decreases list.len(),
{
    if list.len() > 0 {
        lemma_list_views(list.drop_last());
        assert forall|i: int| 0 <= i < list.len() implies #[trigger] list_views(list)[i]
            == json_view(list[i]) by {
            if i < list.len() - 1 {
                assert(list_views(list.drop_last())[i] == json_view(list.drop_last()[i]));
            }
        }
    }
}

/// Each member of an object is viewed in its place.
pub broadcast proof fn lemma_member_views(members: Seq<(String, Json)>)
    ensures
        (#[trigger] member_views(members)).len() == members.len(),
        forall|i: int|
            0 <= i < members.len() ==> #[trigger] member_views(members)[i] == (
                members[i].0@,
                json_view(members[i].1),
            ),
    decreases members.len(),
{
    if members.len() > 0 {
        lemma_member_views(members.drop_last());
        assert forall|i: int| 0 <= i < members.len() implies #[trigger] member_views(members)[i]
            == (members[i].0@, json_view(members[i].1)) by {
            if i < members.len() - 1 {
                let front = members.drop_last();
                assert(member_views(front)[i] == (front[i].0@, json_view(front[i].1)));
            }
        }
    }
}

/// Members in front of which none is called `name` do not change the search.
proof fn lemma_lookup_skip(members: Seq<(Seq<char>, JsonView)>, name: Seq<char>, n: int)
    requires
        0 <= n <= members.len(),
        forall|i: int| 0 <= i < n ==> (#[trigger] members[i]).0 != name,
    ensures
        lookup(members, name) == lookup(members.skip(n), name),
    decreases n,
{
    if n == 0 {
        assert(members.skip(0) =~= members);
    } else {
        let rest = members.drop_first();
        assert forall|i: int| 0 <= i < n - 1 implies (#[trigger] rest[i]).0 != name by {
            assert(rest[i] == members[i + 1]);
        }
        assert(members[0].0 != name);
        lemma_lookup_skip(rest, name, n - 1);
        assert(rest.skip(n - 1) =~= members.skip(n));
    }
}

impl JsonNumber {
    /// The integer that the number is, where it is one and is not negative.
    pub fn as_u64(self) -> (n: Option<u64>)
        ensures
            n == unsigned_value(self),
    {
        match self {
            JsonNumber::Unsigned(n) => Some(n),
            _ => None,
        }
    }

    /// The integer that the number is, where it is one and fits in `i64`.
    pub fn as_i64(self) -> (n: Option<i64>)
        ensures
            n == signed_value(self),
    {
        match self {
            JsonNumber::Unsigned(n) => if n <= i64::MAX as u64 {
                Some(n as i64)
            } else {
                None
            },
            JsonNumber::Negative(n) => Some(n),
            JsonNumber::Float(_) => None,
        }
    }
}

impl Json {
    /// The member `name`, where the value is an object that has it.
    pub fn get(&self, name: &str) -> (found: Option<&Json>)
        ensures
            option_json_view(found) == member(self@, name@),
    {
        match self {
            Json::Object(members) => {
                let mut i: usize = 0;
                while i < members.len()
                    invariant
                        i <= members.len(),
                        forall|j: int|
                            0 <= j < i ==> (#[trigger] member_views(members@)[j]).0 != name@,
                        self@ == JsonView::Object(member_views(members@)),
                    decreases members.len() - i,
                {
                    broadcast use lemma_member_views;

                    let ghost views = member_views(members@);
                    if str_eq(members[i].0.as_str(), name) {
                        proof {
                            lemma_lookup_skip(views, name@, i as int);
                            assert(views.skip(i as int)[0] == views[i as int]);
                        }
                        return Some(&members[i].1);
                    }
                    i = i + 1;
                }
                proof {
                    let views = member_views(members@);
                    lemma_member_views(members@);
                    lemma_lookup_skip(views, name@, views.len() as int);
                }
                None
            },
            _ => None,
        }
    }

    /// The content of the field `name`: the `value` member of that member.
    pub fn field(&self, name: &str) -> (found: Option<&Json>)
        ensures
            option_json_view(found) == field(self@, name@),
    {
        match self.get(name) {
            Some(entry) => entry.get("value"),
            None => None,
        }
    }

    /// Whether the value is null.
    pub fn is_null(&self) -> (yes: bool)
        ensures
            yes == (self@ == JsonView::Null),
    {
        match self {
            Json::Null => true,
            _ => false,
        }
    }

    /// The text that the value is.
    pub fn as_str(&self) -> (s: Option<&str>)
        ensures
            option_str_view(s) == text_of(Some(self@)),
    {
        match self {
            Json::Text(s) => Some(s.as_str()),
            _ => None,
        }
    }

    /// The truth value that the value is.
    pub fn as_bool(&self) -> (b: Option<bool>)
        ensures
            b == bool_of(Some(self@)),
    {
        match self {
            Json::Bool(b) => Some(*b),
            _ => None,
        }
    }

    /// The number that the value is.
    pub fn as_number(&self) -> (n: Option<JsonNumber>)
        ensures
            n == number_of(Some(self@)),
    {
        match self {
            Json::Number(n) => Some(*n),
            _ => None,
        }
    }

    /// The integer that the value is, where it is one and is not negative.
    pub fn as_u64(&self) -> (n: Option<u64>)
        ensures
            n == unsigned_of(Some(self@)),
    {
        match self {
            Json::Number(n) => n.as_u64(),
            _ => None,
        }
    }

    /// The integer that the value is, where it is one and fits in `i64`.
    pub fn as_i64(&self) -> (n: Option<i64>)
        ensures
            n == signed_of(Some(self@)),
    {
        match self {
            Json::Number(n) => n.as_i64(),
            _ => None,
        }
    }

    /// The items of the list that the value is.
    pub fn as_list(&self) -> (list: Option<&Vec<Json>>)
        ensures
            match list {
                Some(list) => list_of(Some(self@)) == Some(list_views(list@)),
                None => list_of(Some(self@)) is None,
            },
    {
        match self {
            Json::List(list) => Some(list),
            _ => None,
        }
    }

    /// The text of the member `name`.
    pub fn get_str(&self, name: &str) -> (s: Option<&str>)
        ensures
            option_str_view(s) == text_of(member(self@, name@)),
    {
        match self.get(name) {
            Some(json) => json.as_str(),
            None => None,
        }
    }

    /// The text content of the field `name`.
    pub fn field_str(&self, name: &str) -> (s: Option<&str>)
        ensures
            option_str_view(s) == text_of(field(self@, name@)),
    {
        match self.field(name) {
            Some(json) => json.as_str(),
            None => None,
        }
    }

    /// The text `s` as a value.
    pub fn text(s: &str) -> (json: Json)
        ensures
            json@ == JsonView::Text(s@),
    {
        Json::Text(s.to_owned())
    }

    /// The integer `n` as a value.
    pub fn unsigned(n: u64) -> (json: Json)
        ensures
            json@ == JsonView::Number(JsonNumber::Unsigned(n)),
    {
        Json::Number(JsonNumber::Unsigned(n))
    }

    /// The object with no members.
    pub fn empty_object() -> (json: Json)
        ensures
            json@ == JsonView::Object(Seq::empty()),
    {
        Json::Object(Vec::new())
    }

    /// The object with the member `name` added behind the others. A value that is
    /// not an object stays as it is.
    pub fn with(self, name: &str, value: Json) -> (json: Json)
        ensures
            json@ == (match self@ {
                JsonView::Object(members) => JsonView::Object(members.push((name@, value@))),
                other => other,
            }),
    {
        match self {
            Json::Object(mut members) => {
                let ghost before = members@;
                members.push((name.to_owned(), value));
                assert(members@.drop_last() =~= before);
                Json::Object(members)
            },
            other => other,
        }
    }

    /// The list of `items`.
    pub fn list(items: Vec<Json>) -> (json: Json)
        ensures
            json@ == JsonView::List(list_views(items@)),
    {
        Json::List(items)
    }

    /// A value that says the same as this one.
    pub fn duplicate(&self) -> (copy: Json)
        ensures
            copy@ == self@,
        decreases self,
    {
        match self {
            Json::Null => Json::Null,
            Json::Bool(b) => Json::Bool(*b),
            Json::Number(n) => Json::Number(*n),
            Json::Text(s) => Json::Text(s.clone()),
            Json::List(list) => Json::List(duplicate_list(list)),
            Json::Object(members) => Json::Object(duplicate_members(members)),
        }
    }
}

/// Values that say the same as the given ones, in the same order.
pub fn duplicate_list(list: &Vec<Json>) -> (copies: Vec<Json>)
    ensures
        list_views(copies@) == list_views(list@),
    decreases list,
{
    let mut copies: Vec<Json> = Vec::new();
    let mut i: usize = 0;
    while i < list.len()
        invariant
            i <= list.len(),
            copies.len() == i,
            list_views(copies@) =~= list_views(list@).take(i as int),
        decreases list.len() - i,
    {
        broadcast use lemma_list_views;

        let ghost before = copies@;
        assert(decreases_to!(list => list@[i as int]));
        copies.push(list[i].duplicate());
        assert(copies@.drop_last() =~= before);
        i = i + 1;
    }
    proof {
        lemma_list_views(list@);
        assert(list_views(list@).take(list@.len() as int) =~= list_views(list@));
    }
    copies
}

/// Members that say the same as the given ones, in the same order.
pub fn duplicate_members(members: &Vec<(String, Json)>) -> (copies: Vec<(String, Json)>)
    ensures
        member_views(copies@) == member_views(members@),
    decreases members,
{
    let mut copies: Vec<(String, Json)> = Vec::new();
    let mut i: usize = 0;
    while i < members.len()
        invariant
            i <= members.len(),
            copies.len() == i,
            member_views(copies@) =~= member_views(members@).take(i as int),
        decreases members.len() - i,
    {
        broadcast use lemma_member_views;

        let ghost before = copies@;
        assert(decreases_to!(members => members@[i as int]));
        assert(decreases_to!(members@[i as int] => members@[i as int].1));
        copies.push((members[i].0.clone(), members[i].1.duplicate()));
        assert(copies@.drop_last() =~= before);
        i = i + 1;
    }
    proof {
        lemma_member_views(members@);
        assert(member_views(members@).take(members@.len() as int) =~= member_views(members@));
    }
    copies
}

/// A member is read by its name: of several with one name, the first.
pub proof fn law_the_first_member_of_a_name_is_read(
    members: Seq<(Seq<char>, JsonView)>,
    name: Seq<char>,
    i: int,
)
    requires
        0 <= i < members.len(),
        members[i].0 == name,
        forall|j: int| 0 <= j < i ==> (#[trigger] members[j]).0 != name,
    ensures
        member(JsonView::Object(members), name) == Some(members[i].1),
{
    lemma_lookup_skip(members, name, i);
    assert(members.skip(i)[0] == members[i]);
}

/// A name that no member has, and a value that is no object, give nothing.
pub proof fn law_what_is_not_there_is_not_read(json: JsonView, name: Seq<char>)
    requires
        json matches JsonView::Object(members) ==> forall|j: int|
            0 <= j < members.len() ==> (#[trigger] members[j]).0 != name,
    ensures
        member(json, name) is None,
        field(json, name) is None,
{
    if let JsonView::Object(members) = json {
        lemma_lookup_skip(members, name, members.len() as int);
    }
}

/// A field's content is what its entry holds as `value`, and nothing else of the entry.
pub proof fn law_a_field_is_the_value_of_its_entry(
    fields: JsonView,
    name: Seq<char>,
    entry: Seq<(Seq<char>, JsonView)>,
    i: int,
)
    requires
        member(fields, name) == Some(JsonView::Object(entry)),
        0 <= i < entry.len(),
        entry[i].0 == "value"@,
        forall|j: int| 0 <= j < i ==> (#[trigger] entry[j]).0 != "value"@,
    ensures
        field(fields, name) == Some(entry[i].1),
{
    law_the_first_member_of_a_name_is_read(entry, "value"@, i);
}

/// A value is read as what it is, and as nothing else: a text that spells a number is no
/// number, and a number is no truth value.
pub proof fn law_values_are_read_as_what_they_are(json: JsonView)
    ensures
        forall|s: Seq<char>| #[trigger] text_of(Some(json)) == Some(s) <==> json == JsonView::Text(s),
        forall|b: bool| #[trigger] bool_of(Some(json)) == Some(b) <==> json == JsonView::Bool(b),
        forall|n: JsonNumber| #[trigger]
            number_of(Some(json)) == Some(n) <==> json == JsonView::Number(n),
        forall|l: Seq<JsonView>| #[trigger]
            list_of(Some(json)) == Some(l) <==> json == JsonView::List(l),
        text_of(None) is None,
        bool_of(None) is None,
        number_of(None) is None,
        list_of(None) is None,
{
}

/// An integer is read as it was written, signed or not, where the type can hold it; what has a
/// fraction or an exponent is no integer.
pub proof fn law_integers_are_read_exactly(n: u64, m: i64, bits: u64)
    ensures
        unsigned_of(Some(JsonView::Number(JsonNumber::Unsigned(n)))) == Some(n),
        unsigned_of(Some(JsonView::Number(JsonNumber::Negative(m)))) is None,
        unsigned_of(Some(JsonView::Number(JsonNumber::Float(bits)))) is None,
        signed_of(Some(JsonView::Number(JsonNumber::Unsigned(n)))) is Some <==> n <= i64::MAX,
        n <= i64::MAX ==> signed_of(Some(JsonView::Number(JsonNumber::Unsigned(n))))->0 == n,
        signed_of(Some(JsonView::Number(JsonNumber::Negative(m)))) == Some(m),
        signed_of(Some(JsonView::Number(JsonNumber::Float(bits)))) is None,
        unsigned_of(None) is None,
        signed_of(None) is None,
{
}

}

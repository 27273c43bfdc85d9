//! JSON documents as plain data. Parsing and rendering are done by `serde_json`;
//! everything the library decides about a document is decided on `Json`.
use crate::text;
use vstd::prelude::*;
use vstd::string::*;

verus! {

/// `serde_json::Number`, carried through where a number is no 64-bit integer.
#[verifier::external_type_specification]
#[verifier::external_body]
pub struct ExNumber(serde_json::Number);

/// `serde_json::Value`, the form in which `serde_json` reads and writes a document.
#[verifier::external_type_specification]
#[verifier::external_body]
pub struct ExValue(serde_json::Value);

/// `Clone` of `serde_json::Number`: the copy is the same number.
pub assume_specification[ <serde_json::Number as Clone>::clone ](
    number: &serde_json::Number,
) -> (copy: serde_json::Number)
    ensures
        copy == *number,
;

/// A JSON number: an unsigned integer, a negative integer, or any other number.
#[derive(Debug, PartialEq, Eq)]
pub enum JsonNumber {
    Unsigned(u64),
    Negative(i64),
    Other(serde_json::Number),
}

/// A JSON document. The members of an object are kept in the order of their names, each name once.
#[derive(Debug, PartialEq, Eq)]
pub enum Json {
    Null,
    Bool(bool),
    Number(JsonNumber),
    Text(String),
    Array(Vec<Json>),
    Object(Vec<JsonMember>),
}

/// One member of an object.
#[derive(Debug, PartialEq, Eq)]
pub struct JsonMember {
    pub name: String,
    pub value: Json,
}

/// What a document is, apart from how it is held.
pub enum JsonView {
    Null,
    Bool(bool),
    Number(JsonNumber),
    Text(Seq<char>),
    Array(Seq<JsonView>),
    Object(Seq<(Seq<char>, JsonView)>),
}

impl Json {
    pub open spec fn document(&self) -> JsonView
        decreases self,
    {
        match self {
            Json::Null => JsonView::Null,
            Json::Bool(b) => JsonView::Bool(*b),
            Json::Number(n) => JsonView::Number(*n),
            Json::Text(text) => JsonView::Text(text@),
            Json::Array(items) => JsonView::Array(
                Seq::new(
                    items@.len(),
                    |i: int|
                        if 0 <= i < items@.len() {
                            items@[i].document()
                        } else {
                            JsonView::Null
                        },
                ),
            ),
            Json::Object(members) => JsonView::Object(
                Seq::new(
                    members@.len(),
                    |i: int|
                        if 0 <= i < members@.len() {
                            (members@[i].name@, members@[i].value.document())
                        } else {
                            (Seq::empty(), JsonView::Null)
                        },
                ),
            ),
        }
    }
}

impl View for Json {
    type V = JsonView;

    open spec fn view(&self) -> JsonView {
        self.document()
    }
}

/// The value of the first member called `name`.
pub open spec fn lookup(members: Seq<(Seq<char>, JsonView)>, name: Seq<char>) -> Option<JsonView>
    decreases members.len(),
{
    if members.len() == 0 {
        None
    } else if members[0].0 == name {
        Some(members[0].1)
    } else {
        lookup(members.drop_first(), name)
    }
}

/// Each name once, in the order of texts.
pub open spec fn ordered<V>(members: Seq<(Seq<char>, V)>) -> bool {
    forall|i: int, j: int|
        0 <= i < j < members.len() ==> text::text_less(
            #[trigger] members[i].0,
            #[trigger] members[j].0,
        )
}

/// The members with `name` set to `value`, at its place in the order of names.
pub open spec fn set_member<V>(
    members: Seq<(Seq<char>, V)>,
    name: Seq<char>,
    value: V,
) -> Seq<(Seq<char>, V)>
    decreases members.len(),
{
    if members.len() == 0 {
        seq![(name, value)]
    } else if members.last().0 == name {
        members.drop_last().push((name, value))
    } else if text::text_less(members.last().0, name) {
        members.push((name, value))
    } else {
        set_member(members.drop_last(), name, value).push(members.last())
    }
}

/// The members of an object written with `given`: a later member replaces an earlier one.
pub open spec fn collected(given: Seq<(Seq<char>, JsonView)>) -> Seq<(Seq<char>, JsonView)>
    decreases given.len(),
{
    if given.len() == 0 {
        seq![]
    } else {
        set_member(collected(given.drop_last()), given.last().0, given.last().1)
    }
}

/// What the members are, in the order in which they are held.
pub open spec fn members_view(members: Seq<JsonMember>) -> Seq<(Seq<char>, JsonView)> {
    members.map_values(|member: JsonMember| (member.name@, member.value@))
}

impl JsonView {
    /// The member of an object called `name`; nothing on any other document.
    pub open spec fn get(self, name: Seq<char>) -> Option<JsonView> {
        match self {
            JsonView::Object(members) => lookup(members, name),
            _ => None,
        }
    }

    pub open spec fn as_u64(self) -> Option<u64> {
        match self {
            JsonView::Number(JsonNumber::Unsigned(n)) => Some(n),
            _ => None,
        }
    }
}

proof fn lemma_set_member_names<V>(
    members: Seq<(Seq<char>, V)>,
    name: Seq<char>,
    value: V,
    bound: Seq<char>,
)
    requires
        forall|i: int| 0 <= i < members.len() ==> text::text_less(#[trigger] members[i].0, bound),
        text::text_less(name, bound),
    ensures
        forall|i: int|
            0 <= i < set_member(members, name, value).len() ==> text::text_less(
                #[trigger] set_member(members, name, value)[i].0,
                bound,
            ),
    decreases members.len(),
{
    if members.len() > 0 {
        let front = members.drop_last();
        assert(members[members.len() - 1] == members.last());
        assert forall|i: int| 0 <= i < front.len() implies text::text_less(
            #[trigger] front[i].0,
            bound,
        ) by {
            assert(front[i] == members[i]);
        }
        lemma_set_member_names(front, name, value, bound);
        let out = set_member(members, name, value);
        assert forall|i: int| 0 <= i < out.len() implies text::text_less(
            #[trigger] out[i].0,
            bound,
        ) by {
            if members.last().0 == name || !text::text_less(members.last().0, name) {
                if i < out.len() - 1 && members.last().0 == name {
                    assert(out[i] == front[i]);
                } else if i < out.len() - 1 {
                    assert(out[i] == set_member(front, name, value)[i]);
                }
            } else if i < members.len() {
                assert(out[i] == members[i]);
            }
        }
    }
}

/// Setting a member keeps the names in order, each once.
pub proof fn lemma_set_member_ordered<V>(
    members: Seq<(Seq<char>, V)>,
    name: Seq<char>,
    value: V,
)
    requires
        ordered(members),
    ensures
        ordered(set_member(members, name, value)),
    decreases members.len(),
{
    if members.len() > 0 {
        let last = members.last();
        let front = members.drop_last();
        assert forall|i: int| 0 <= i < front.len() implies text::text_less(
            #[trigger] front[i].0,
            last.0,
        ) by {
            assert(front[i] == members[i]);
            assert(members[members.len() - 1] == last);
        }
        assert(ordered(front)) by {
            assert forall|i: int, j: int| 0 <= i < j < front.len() implies text::text_less(
                #[trigger] front[i].0,
                #[trigger] front[j].0,
            ) by {
                assert(members[i] == front[i] && members[j] == front[j]);
            }
        }
        if last.0 == name {
            assert(set_member(members, name, value) =~= front.push((name, value)));
        } else if text::text_less(last.0, name) {
            assert forall|i: int| 0 <= i < members.len() implies text::text_less(
                #[trigger] members[i].0,
                name,
            ) by {
                if i < members.len() - 1 {
                    assert(front[i] == members[i]);
                    text::lemma_text_less_trans(members[i].0, last.0, name);
                }
            }
        } else {
            text::lemma_text_less_total(last.0, name);
            lemma_set_member_names(front, name, value, last.0);
            lemma_set_member_ordered(front, name, value);
        }
    }
}

/// An object written with any members holds each name once, in order.
pub proof fn law_object_names_are_ordered(given: Seq<(Seq<char>, JsonView)>)
    ensures
        ordered(collected(given)),
    decreases given.len(),
{
    if given.len() > 0 {
        law_object_names_are_ordered(given.drop_last());
        lemma_set_member_ordered(
            collected(given.drop_last()),
            given.last().0,
            given.last().1,
        );
    }
}

/// A member that stands in two lists, each in the order of its names, stands in the second no
/// earlier than in the first, where the second holds all that the first holds.
proof fn lemma_no_earlier<V>(
    members: Seq<(Seq<char>, V)>,
    other: Seq<(Seq<char>, V)>,
    i: int,
    j: int,
)
    requires
        ordered(members),
        ordered(other),
        forall|k: int| 0 <= k < members.len() ==> other.contains(#[trigger] members[k]),
        0 <= i < members.len(),
        0 <= j < other.len(),
        members[i] == other[j],
    ensures
        i <= j,
    decreases i,
{
    if i > 0 {
        assert(other.contains(members[i - 1]));
        let k = choose|k: int| 0 <= k < other.len() && other[k] == members[i - 1];
        lemma_no_earlier(members, other, i - 1, k);
        text::lemma_text_less_total(members[i - 1].0, members[i].0);
        if j < k {
            assert(text::text_less(other[j].0, other[k].0));
        }
    }
}

/// Two lists in the order of their names that hold the same members are the same.
proof fn lemma_ordered_alike<V>(members: Seq<(Seq<char>, V)>, other: Seq<(Seq<char>, V)>)
    requires
        ordered(members),
        ordered(other),
        forall|k: int| 0 <= k < members.len() ==> other.contains(#[trigger] members[k]),
        forall|k: int| 0 <= k < other.len() ==> members.contains(#[trigger] other[k]),
    ensures
        members == other,
{
    assert forall|i: int| 0 <= i < members.len() implies i < other.len() && #[trigger] members[i]
        == other[i] by {
        assert(other.contains(members[i]));
        let j = choose|j: int| 0 <= j < other.len() && other[j] == members[i];
        lemma_no_earlier(members, other, i, j);
        lemma_no_earlier(other, members, j, i);
    }
    if members.len() > 0 {
        assert(members[members.len() - 1] == other[members.len() - 1]);
    }
    if other.len() > members.len() {
        let j = other.len() - 1;
        assert(members.contains(other[j]));
        let i = choose|i: int| 0 <= i < members.len() && members[i] == other[j];
        lemma_no_earlier(other, members, j, i);
    }
    assert(members =~= other);
}

proof fn lemma_set_new_member<V>(
    members: Seq<(Seq<char>, V)>,
    name: Seq<char>,
    value: V,
    entry: (Seq<char>, V),
)
    requires
        forall|k: int| 0 <= k < members.len() ==> #[trigger] members[k].0 != name,
    ensures
        set_member(members, name, value).contains(entry) <==> members.contains(entry) || entry == (
            name,
            value,
        ),
    decreases members.len(),
{
    let set = set_member(members, name, value);
    if members.len() == 0 {
        assert(set[0] == (name, value));
    } else {
        let front = members.drop_last();
        assert(members[members.len() - 1] == members.last());
        assert(members =~= front.push(members.last()));
        if text::text_less(members.last().0, name) {
            assert(set == members.push((name, value)));
            if members.contains(entry) {
                let k = choose|k: int| 0 <= k < members.len() && members[k] == entry;
                assert(set[k] == entry);
            }
            assert(set[members.len() as int] == (name, value));
        } else {
            assert forall|k: int| 0 <= k < front.len() implies #[trigger] front[k].0 != name by {
                assert(front[k] == members[k]);
            }
            lemma_set_new_member(front, name, value, entry);
            let inner = set_member(front, name, value);
            assert(set == inner.push(members.last()));
            if inner.contains(entry) {
                let k = choose|k: int| 0 <= k < inner.len() && inner[k] == entry;
                assert(set[k] == entry);
            }
            if front.contains(entry) {
                let k = choose|k: int| 0 <= k < front.len() && front[k] == entry;
                assert(members[k] == entry);
            }
            assert(set[inner.len() as int] == members.last());
        }
    }
}

/// Each name once.
pub open spec fn distinct_names(members: Seq<(Seq<char>, JsonView)>) -> bool {
    forall|i: int, j: int|
        0 <= i < j < members.len() ==> #[trigger] members[i].0 != #[trigger] members[j].0
}

proof fn lemma_collected_holds(given: Seq<(Seq<char>, JsonView)>, entry: (Seq<char>, JsonView))
    requires
        distinct_names(given),
    ensures
        collected(given).contains(entry) <==> given.contains(entry),
    decreases given.len(),
{
    if given.len() > 0 {
        let front = given.drop_last();
        let last = given.last();
        let before = collected(front);
        assert(given =~= front.push(last));
        assert(distinct_names(front)) by {
            assert forall|i: int, j: int| 0 <= i < j < front.len() implies #[trigger] front[i].0
                != #[trigger] front[j].0 by {
                assert(given[i] == front[i] && given[j] == front[j]);
            }
        }
        lemma_collected_holds(front, entry);
        assert forall|k: int| 0 <= k < before.len() implies #[trigger] before[k].0 != last.0 by {
            assert(before.contains(before[k]));
            lemma_collected_holds(front, before[k]);
            let i = choose|i: int| 0 <= i < front.len() && front[i] == before[k];
            assert(given[i].0 != given[given.len() - 1].0);
        }
        lemma_set_new_member(before, last.0, last.1, entry);
        if front.contains(entry) {
            let k = choose|k: int| 0 <= k < front.len() && front[k] == entry;
            assert(given[k] == entry);
        }
        assert(given[given.len() - 1] == last);
    }
}

/// The order in which the members of an object are written does not matter.
pub proof fn law_member_order_does_not_matter(
    given: Seq<(Seq<char>, JsonView)>,
    other: Seq<(Seq<char>, JsonView)>,
)
    requires
        distinct_names(given),
        given.to_multiset() == other.to_multiset(),
    ensures
        collected(given) == collected(other),
{
    assert forall|entry: (Seq<char>, JsonView)| #[trigger]
        given.contains(entry) <==> other.contains(entry) by {
        vstd::seq_lib::to_multiset_contains(given, entry);
        vstd::seq_lib::to_multiset_contains(other, entry);
    }
    assert forall|i: int, j: int| 0 <= i < given.len() && 0 <= j < given.len() && i != j implies
        given[i] != given[j] by {
        if i < j {
            assert(given[i].0 != given[j].0);
        } else {
            assert(given[j].0 != given[i].0);
        }
    }
    given.lemma_multiset_has_no_duplicates();
    other.lemma_multiset_has_no_duplicates_conv();
    assert(distinct_names(other)) by {
        assert forall|i: int, j: int| 0 <= i < j < other.len() implies #[trigger] other[i].0
            != #[trigger] other[j].0 by {
            assert(given.contains(other[i]) && given.contains(other[j]));
            let a = choose|a: int| 0 <= a < given.len() && given[a] == other[i];
            let b = choose|b: int| 0 <= b < given.len() && given[b] == other[j];
            assert(a != b);
        }
    }
    law_object_names_are_ordered(given);
    law_object_names_are_ordered(other);
    let first = collected(given);
    let second = collected(other);
    assert forall|k: int| 0 <= k < first.len() implies second.contains(#[trigger] first[k]) by {
        assert(first.contains(first[k]));
        lemma_collected_holds(given, first[k]);
        lemma_collected_holds(other, first[k]);
    }
    assert forall|k: int| 0 <= k < second.len() implies first.contains(#[trigger] second[k]) by {
        assert(second.contains(second[k]));
        lemma_collected_holds(given, second[k]);
        lemma_collected_holds(other, second[k]);
    }
    lemma_ordered_alike(first, second);
}

/// A document in which every object, at any depth, holds each name once and in order.
pub open spec fn in_order(document: JsonView) -> bool
    decreases document,
{
    match document {
        JsonView::Object(members) => ordered(members) && forall|i: int|
            0 <= i < members.len() ==> in_order((#[trigger] members[i]).1),
        JsonView::Array(items) => forall|i: int|
            0 <= i < items.len() ==> in_order(#[trigger] items[i]),
        _ => true,
    }
}

/// Two documents that differ in nothing but the order of members, at any depth.
pub open spec fn same_members(document: JsonView, other: JsonView) -> bool
    decreases document,
{
    match (document, other) {
        (JsonView::Object(members), JsonView::Object(others)) => {
            &&& forall|i: int|
                0 <= i < members.len() ==> exists|j: int|
                    0 <= j < others.len() && (#[trigger] members[i]).0 == (#[trigger] others[j]).0
                        && same_members(members[i].1, others[j].1)
            &&& forall|j: int|
                0 <= j < others.len() ==> exists|i: int|
                    0 <= i < members.len() && (#[trigger] members[i]).0 == (
                    #[trigger] others[j]).0 && same_members(members[i].1, others[j].1)
        },
        (JsonView::Array(items), JsonView::Array(others)) => items.len() == others.len()
            && forall|i: int|
            0 <= i < items.len() ==> same_members(#[trigger] items[i], others[i]),
        _ => document == other,
    }
}

/// Of the documents that differ in nothing but the order of members, one alone is in order.
pub proof fn law_ordered_documents_are_canonical(document: JsonView, other: JsonView)
    requires
        in_order(document),
        in_order(other),
        same_members(document, other),
    ensures
        document == other,
    decreases document,
{
    match (document, other) {
        (JsonView::Object(members), JsonView::Object(others)) => {
            assert forall|i: int| 0 <= i < members.len() implies others.contains(
                #[trigger] members[i],
            ) by {
                let j = choose|j: int|
                    0 <= j < others.len() && members[i].0 == (#[trigger] others[j]).0
                        && same_members(members[i].1, others[j].1);
                law_ordered_documents_are_canonical(members[i].1, others[j].1);
                assert(others[j] == members[i]);
            }
            assert forall|j: int| 0 <= j < others.len() implies members.contains(
                #[trigger] others[j],
            ) by {
                let i = choose|i: int|
                    0 <= i < members.len() && (#[trigger] members[i]).0 == others[j].0
                        && same_members(members[i].1, others[j].1);
                law_ordered_documents_are_canonical(members[i].1, others[j].1);
                assert(members[i] == others[j]);
            }
            lemma_ordered_alike(members, others);
        },
        (JsonView::Array(items), JsonView::Array(others)) => {
            assert forall|i: int| 0 <= i < items.len() implies items[i] == others[i] by {
                law_ordered_documents_are_canonical(items[i], others[i]);
            }
            assert(items =~= others);
        },
        _ => {},
    }
}

proof fn lemma_lookup_at(members: Seq<(Seq<char>, JsonView)>, name: Seq<char>, at: int)
    requires
        0 <= at < members.len(),
        members[at].0 == name,
        forall|i: int| 0 <= i < at ==> #[trigger] members[i].0 != name,
    ensures
        lookup(members, name) == Some(members[at].1),
    decreases at,
{
    if at > 0 {
        assert(members[0].0 != name);
        assert forall|i: int| 0 <= i < at - 1 implies #[trigger] members.drop_first()[i].0
            != name by {
            assert(members.drop_first()[i] == members[i + 1]);
        }
        lemma_lookup_at(members.drop_first(), name, at - 1);
    }
}

proof fn lemma_lookup_none(members: Seq<(Seq<char>, JsonView)>, name: Seq<char>)
    requires
        forall|i: int| 0 <= i < members.len() ==> #[trigger] members[i].0 != name,
    ensures
        lookup(members, name) is None,
    decreases members.len(),
{
    if members.len() > 0 {
        assert(members[0].0 != name);
        assert forall|i: int| 0 <= i < members.len() - 1 implies #[trigger] members.drop_first()[i].0
            != name by {
            assert(members.drop_first()[i] == members[i + 1]);
        }
        lemma_lookup_none(members.drop_first(), name);
    }
}

/// A document is larger than each of the values inside it.
pub proof fn lemma_inside(document: Json, i: int)
    ensures
        document is Object && 0 <= i < document->Object_0@.len() ==> decreases_to!(document => document->Object_0@[i].value),
        document is Array && 0 <= i < document->Array_0@.len() ==> decreases_to!(document => document->Array_0@[i]),
{
    match document {
        Json::Object(members) => {
            if 0 <= i < members@.len() {
                assert(decreases_to!(document => document->Object_0));
                assert(decreases_to!(members => members@));
                assert(decreases_to!(members@ => members@[i]));
                assert(decreases_to!(members@[i] => members@[i].value));
            }
        },
        Json::Array(items) => {
            if 0 <= i < items@.len() {
                assert(decreases_to!(document => document->Array_0));
                assert(decreases_to!(items => items@));
                assert(decreases_to!(items@ => items@[i]));
            }
        },
        _ => {},
    }
}

impl Clone for JsonNumber {
    fn clone(&self) -> (copy: Self)
        ensures
            copy == *self,
    {
        match self {
            JsonNumber::Unsigned(n) => JsonNumber::Unsigned(*n),
            JsonNumber::Negative(n) => JsonNumber::Negative(*n),
            JsonNumber::Other(n) => JsonNumber::Other(n.clone()),
        }
    }
}

impl Clone for Json {
    fn clone(&self) -> (copy: Self)
        ensures
            copy@ == self@,
        decreases self,
    {
        match self {
            Json::Null => Json::Null,
            Json::Bool(b) => Json::Bool(*b),
            Json::Number(n) => Json::Number(n.clone()),
            Json::Text(text) => Json::Text(text.clone()),
            Json::Array(items) => {
                let mut copies: Vec<Json> = Vec::new();
                let mut i: usize = 0;
                while i < items.len()
                    invariant
                        i <= items.len(),
                        self matches Json::Array(v) && v == items,
                        copies.len() == i,
                        forall|k: int| 0 <= k < i ==> (#[trigger] copies@[k])@ == items@[k]@,
                    decreases items.len() - i,
                {
                    let copy = items[i].clone();
                    copies.push(copy);
                    i += 1;
                }
                let copy = Json::Array(copies);
                assert(copy@->Array_0 =~= self@->Array_0);
                copy
            },
            Json::Object(members) => {
                let mut copies: Vec<JsonMember> = Vec::new();
                let mut i: usize = 0;
                while i < members.len()
                    invariant
                        i <= members.len(),
                        self matches Json::Object(v) && v == members,
                        copies.len() == i,
                        forall|k: int|
                            0 <= k < i ==> (#[trigger] copies@[k]).name@ == members@[k].name@
                                && copies@[k].value@ == members@[k].value@,
                    decreases members.len() - i,
                {
                    let value = members[i].value.clone();
                    copies.push(JsonMember { name: members[i].name.clone(), value });
                    i += 1;
                }
                let copy = Json::Object(copies);
                assert(copy@->Object_0 =~= self@->Object_0);
                copy
            },
        }
    }
}

impl Clone for JsonMember {
    fn clone(&self) -> (copy: Self)
        ensures
            copy.name@ == self.name@,
            copy.value@ == self.value@,
    {
        JsonMember { name: self.name.clone(), value: self.value.clone() }
    }
}

impl Json {
    /// A document of one text.
    pub fn text(value: &str) -> (document: Json)
        ensures
            document@ == JsonView::Text(value@),
    {
        Json::Text(value.to_owned())
    }

    /// An object with the given members; a later member replaces an earlier one of its name.
    pub fn object(given: Vec<JsonMember>) -> (document: Json)
        ensures
            document@ == JsonView::Object(collected(members_view(given@))),
    {
        let mut members: Vec<JsonMember> = Vec::new();
        let mut i: usize = 0;
        while i < given.len()
            invariant
                i <= given.len(),
                members_view(members@) == collected(members_view(given@).take(i as int)),
            decreases given.len() - i,
        {
            let member = given[i].clone();
            proof {
                let after = members_view(given@).take(i + 1);
                assert(after.drop_last() =~= members_view(given@).take(i as int));
                assert(after.last() == (given@[i as int].name@, given@[i as int].value@));
            }
            set_in(&mut members, member);
            i += 1;
        }
        assert(members_view(given@).take(i as int) =~= members_view(given@));
        let document = Json::Object(members);
        assert(document@->Object_0 =~= members_view(members@));
        document
    }

    /// The member of an object called `name`.
    pub fn get(&self, name: &str) -> (found: Option<&Json>)
        ensures
            match found {
                Some(value) => self@.get(name@) == Some(value@),
                None => self@.get(name@) is None,
            },
    {
        match self {
            Json::Object(members) => {
                let found = member_value(members, name);
                assert(self@->Object_0 =~= members_view(members@));
                found
            },
            _ => None,
        }
    }

    /// The text of a text document.
    pub fn as_str(&self) -> (text: Option<&str>)
        ensures
            match text {
                Some(value) => self@ == JsonView::Text(value@),
                None => !(self@ is Text),
            },
    {
        match self {
            Json::Text(text) => Some(text.as_str()),
            _ => None,
        }
    }

    /// The number, where it is an unsigned integer of 64 bits.
    pub fn as_u64(&self) -> (number: Option<u64>)
        ensures
            number == self@.as_u64(),
    {
        match self {
            Json::Number(JsonNumber::Unsigned(n)) => Some(*n),
            _ => None,
        }
    }

    pub fn is_object(&self) -> (yes: bool)
        ensures
            yes == (self@ is Object),
    {
        match self {
            Json::Object(_) => true,
            _ => false,
        }
    }

    /// Reads a document from its text. In whatever order the text gives the members of an object,
    /// the document holds them in the order of their names.
    pub fn parse(source: &str) -> (read: Result<Json, String>)
        ensures
            match read {
                Ok(document) => parsed(source@) == Ok::<JsonView, Seq<char>>(document@)
                    && in_order(document@),
                Err(detail) => parsed(source@) == Err::<JsonView, Seq<char>>(detail@),
            },
    {
        read_text(source)
    }

    /// The text of the document, without blanks between its parts.
    pub fn render(&self) -> (rendering: String)
        ensures
            rendering@ == rendered(self@),
    {
        write_text(self)
    }
}

/// The value of the first member called `name`.
pub fn member_value<'a>(members: &'a Vec<JsonMember>, name: &str) -> (found: Option<&'a Json>)
    ensures
        match found {
            Some(value) => lookup(members_view(members@), name@) == Some(value@) && exists|i: int|
                0 <= i < members@.len() && (#[trigger] members@[i]).value == *value,
            None => lookup(members_view(members@), name@) is None,
        },
{
    let ghost view = members_view(members@);
    let mut i: usize = 0;
    while i < members.len()
        invariant
            i <= members.len(),
            view == members_view(members@),
            forall|k: int| 0 <= k < i ==> #[trigger] view[k].0 != name@,
        decreases members.len() - i,
    {
        if text::same_text(members[i].name.as_str(), name) {
            proof {
                assert(view[i as int].0 == name@);
                lemma_lookup_at(view, name@, i as int);
            }
            return Some(&members[i].value);
        }
        assert(view[i as int].0 != name@);
        i += 1;
    }
    proof {
        lemma_lookup_none(view, name@);
    }
    None
}

/// Sets one member at its place in the order of names.
pub fn set_in(members: &mut Vec<JsonMember>, member: JsonMember)
    ensures
        members_view(final(members)@) == set_member(
            members_view(old(members)@),
            member.name@,
            member.value@,
        ),
{
    let ghost before = members_view(members@);
    let mut at: usize = members.len();
    let ghost mut tail: Seq<(Seq<char>, JsonView)> = seq![];
    proof {
        assert(before.take(before.len() as int) =~= before);
        assert(set_member(before, member.name@, member.value@) =~= set_member(
            before.take(at as int),
            member.name@,
            member.value@,
        ) + tail);
    }
    while at > 0 && !text::same_text(members[at - 1].name.as_str(), member.name.as_str())
        && !text::text_before(members[at - 1].name.as_str(), member.name.as_str())
        invariant
            at <= members.len(),
            before == members_view(members@),
            tail == before.subrange(at as int, before.len() as int),
            set_member(before, member.name@, member.value@) == set_member(
                before.take(at as int),
                member.name@,
                member.value@,
            ) + tail,
        decreases at,
    {
        proof {
            let here = before.take(at as int);
            assert(here.last() == before[at - 1]);
            assert(here.drop_last() =~= before.take(at - 1));
            assert(before.subrange(at - 1, before.len() as int) =~= seq![before[at - 1]] + tail);
            tail = before.subrange(at - 1, before.len() as int);
        }
        at -= 1;
        assert(set_member(before, member.name@, member.value@) =~= set_member(
            before.take(at as int),
            member.name@,
            member.value@,
        ) + tail);
    }
    let ghost entry = (member.name@, member.value@);
    let ghost here = before.take(at as int);
    if at > 0 && text::same_text(members[at - 1].name.as_str(), member.name.as_str()) {
        members.set(at - 1, member);
        proof {
            assert(here.last() == before[at - 1]);
            assert(here.drop_last().push(entry) + tail =~= before.update(at - 1, entry));
            assert(members_view(members@) =~= before.update(at - 1, entry));
        }
    } else {
        members.insert(at, member);
        proof {
            if at > 0 {
                assert(here.last() == before[at - 1]);
            }
            assert(here.push(entry) + tail =~= before.insert(at as int, entry));
            assert(members_view(members@) =~= before.insert(at as int, entry));
        }
    }
}

// ---------------------------------------------------------------- serde_json

/// What `serde_json::from_str` reads from a text: a document, or the text of its error.
pub uninterp spec fn parsed(source: Seq<char>) -> Result<JsonView, Seq<char>>;

/// The compact text that `serde_json` gives for a document.
pub uninterp spec fn rendered(document: JsonView) -> Seq<char>;

/// Carries a `serde_json::Value` over, variant by variant; a number that is no 64-bit integer is
/// kept as `serde_json` holds it. What it gives is claimed only where `read_text` calls it.
#[verifier::external_body]
fn from_value(value: serde_json::Value) -> Json {
    match value {
        serde_json::Value::Null => Json::Null,
        serde_json::Value::Bool(b) => Json::Bool(b),
        serde_json::Value::Number(n) => Json::Number(match (n.as_u64(), n.as_i64()) {
            (Some(u), _) => JsonNumber::Unsigned(u),
            (None, Some(i)) => JsonNumber::Negative(i),
            (None, None) => JsonNumber::Other(n),
        }),
        serde_json::Value::String(s) => Json::Text(s),
        serde_json::Value::Array(a) => Json::Array(a.into_iter().map(from_value).collect()),
        serde_json::Value::Object(o) => Json::Object(
            o.into_iter().map(|(name, v)| JsonMember { name, value: from_value(v) }).collect(),
        ),
    }
}

/// Carries a document over to a `serde_json::Value`, variant by variant. What it gives is claimed
/// only where `write_text` calls it.
#[verifier::external_body]
fn to_value(document: &Json) -> serde_json::Value {
    match document {
        Json::Null => serde_json::Value::Null,
        Json::Bool(b) => serde_json::Value::Bool(*b),
        Json::Number(JsonNumber::Unsigned(n)) => serde_json::Value::from(*n),
        Json::Number(JsonNumber::Negative(n)) => serde_json::Value::from(*n),
        Json::Number(JsonNumber::Other(n)) => serde_json::Value::Number(n.clone()),
        Json::Text(s) => serde_json::Value::String(s.clone()),
        Json::Array(a) => serde_json::Value::Array(a.iter().map(to_value).collect()),
        Json::Object(o) => serde_json::Value::Object(
            o.iter().map(|m| (m.name.clone(), to_value(&m.value))).collect(),
        ),
    }
}

/// `serde_json::from_str` into a `serde_json::Value`, carried over to a document. The result is a
/// function of the text alone, and an error is told by its text. `serde_json` keeps an object in a
/// `BTreeMap`, so its members come in the order of their names, each once.
#[verifier::external_body]
fn read_text(source: &str) -> (read: Result<Json, String>)
    ensures
        match read {
            Ok(document) => parsed(source@) == Ok::<JsonView, Seq<char>>(document@) && in_order(
                document@,
            ),
            Err(detail) => parsed(source@) == Err::<JsonView, Seq<char>>(detail@),
        },
{
    serde_json::from_str(source).map(from_value).map_err(|error| error.to_string())
}

/// `to_string` of the `serde_json::Value` that the document stands for: compact JSON, a function
/// of the document alone.
#[verifier::external_body]
fn write_text(document: &Json) -> (rendering: String)
    ensures
        rendering@ == rendered(document@),
{
    to_value(document).to_string()
}

proof fn lemma_lookup_push(
    members: Seq<(Seq<char>, JsonView)>,
    entry: (Seq<char>, JsonView),
    name: Seq<char>,
)
    ensures
        lookup(members.push(entry), name) == match lookup(members, name) {
            Some(value) => Some(value),
            None => if entry.0 == name {
                Some(entry.1)
            } else {
                None
            },
        },
    decreases members.len(),
{
    let longer = members.push(entry);
    if members.len() == 0 {
        assert(longer.drop_first() =~= seq![]);
        assert(lookup(longer.drop_first(), name) is None);
    } else {
        assert(longer.drop_first() =~= members.drop_first().push(entry));
        assert(longer[0] == members[0]);
        lemma_lookup_push(members.drop_first(), entry, name);
    }
}

/// What is set is found, and what is set under other names stays.
pub proof fn law_set_members_are_found(
    members: Seq<(Seq<char>, JsonView)>,
    name: Seq<char>,
    value: JsonView,
    other: Seq<char>,
)
    requires
        ordered(members),
    ensures
        lookup(set_member(members, name, value), name) == Some(value),
        other != name ==> lookup(set_member(members, name, value), other) == lookup(members, other),
    decreases members.len(),
{
    if members.len() == 0 {
        assert(seq![(name, value)] =~= members.push((name, value)));
        lemma_lookup_push(members, (name, value), name);
        lemma_lookup_push(members, (name, value), other);
    } else {
        let front = members.drop_last();
        let last = members.last();
        assert(members =~= front.push(last));
        lemma_lookup_push(front, last, other);
        lemma_lookup_push(front, last, name);
        assert forall|i: int, j: int| 0 <= i < j < front.len() implies text::text_less(
            #[trigger] front[i].0,
            #[trigger] front[j].0,
        ) by {
            assert(front[i] == members[i] && front[j] == members[j]);
        }
        if last.0 == name || text::text_less(last.0, name) {
            assert forall|i: int| 0 <= i < front.len() implies (#[trigger] front[i]).0 != name by {
                assert(text::text_less(members[i].0, members[members.len() - 1].0));
                text::lemma_text_less_total(last.0, name);
                text::lemma_text_less_total(front[i].0, last.0);
            }
            lemma_lookup_none(front, name);
        }
        if last.0 == name {
            lemma_lookup_push(front, (name, value), name);
            lemma_lookup_push(front, (name, value), other);
        } else if text::text_less(last.0, name) {
            text::lemma_text_less_total(last.0, name);
            lemma_lookup_push(members, (name, value), name);
            lemma_lookup_push(members, (name, value), other);
        } else {
            law_set_members_are_found(front, name, value, other);
            lemma_lookup_push(set_member(front, name, value), last, name);
            lemma_lookup_push(set_member(front, name, value), last, other);
        }
    }
}

/// Of members that are given under one name the last one counts.
pub proof fn law_last_members_count(
    given: Seq<(Seq<char>, JsonView)>,
    entry: (Seq<char>, JsonView),
    other: Seq<char>,
)
    ensures
        lookup(collected(given.push(entry)), entry.0) == Some(entry.1),
        other != entry.0 ==> lookup(collected(given.push(entry)), other) == lookup(
            collected(given),
            other,
        ),
        lookup(collected(seq![]), other) is None,
{
    assert(given.push(entry).drop_last() =~= given);
    law_object_names_are_ordered(given);
    law_set_members_are_found(collected(given), entry.0, entry.1, other);
}

} // verus!

//! JSON from the reader's side: the value that a text stands for.

use vstd::prelude::*;

use crate::json;
use crate::text;

verus! {

/// A JSON value of the kinds that are written here. Members keep their order.
pub enum Json {
    Null,
    Text(Seq<char>),
    Number(nat),
    List(Seq<Json>),
    Object(Seq<(Seq<char>, Json)>),
}

impl Json {
    /// How the value is written, without any space.
    pub open spec fn text(self) -> Seq<char>
        decreases self,
    {
        match self {
            Json::Null => seq!['n', 'u', 'l', 'l'],
            Json::Text(s) => json::json_string(s),
            Json::Number(n) => text::decimal(n),
            Json::List(items) => seq!['['] + items_text(items) + seq![']'],
            Json::Object(members) => seq!['{'] + members_text(members) + seq!['}'],
        }
    }

    /// The member called `name` of an object, if it has one.
    pub open spec fn member(self, name: Seq<char>) -> Option<Json> {
        match self {
            Json::Object(members) => if exists|i: int| is_at(members, name, i) {
                Some(members[choose|i: int| is_at(members, name, i)].1)
            } else {
                None
            },
            _ => None,
        }
    }

    /// The item at `index` of a list, if there is one.
    pub open spec fn item(self, index: int) -> Option<Json> {
        match self {
            Json::List(items) => if 0 <= index < items.len() {
                Some(items[index])
            } else {
                None
            },
            _ => None,
        }
    }
}

/// The member at `i` is called `name`, and is the first that is.
pub open spec fn is_at(members: Seq<(Seq<char>, Json)>, name: Seq<char>, i: int) -> bool {
    &&& 0 <= i < members.len()
    &&& members[i].0 == name
    &&& forall|j: int| 0 <= j < i ==> (#[trigger] members[j]).0 != name
}

/// The items of a list, with commas between them.
pub open spec fn items_text(items: Seq<Json>) -> Seq<char>
    decreases items,
{
    if items.len() == 0 {
        Seq::empty()
    } else if items.len() == 1 {
        items[0].text()
    } else {
        items[0].text() + seq![','] + items_text(items.subrange(1, items.len() as int))
    }
}

/// One member of an object.
pub open spec fn member_text(name: Seq<char>, value: Seq<char>) -> Seq<char> {
    json::json_string(name) + seq![':'] + value
}

/// The members of an object, with commas between them.
pub open spec fn members_text(members: Seq<(Seq<char>, Json)>) -> Seq<char>
    decreases members,
{
    if members.len() == 0 {
        Seq::empty()
    } else if members.len() == 1 {
        member_text(members[0].0, members[0].1.text())
    } else {
        member_text(members[0].0, members[0].1.text()) + seq![','] + members_text(
            members.subrange(1, members.len() as int),
        )
    }
}

/// The value that `body` stands for, if it stands for one.
pub open spec fn read(body: Seq<char>) -> Option<Json> {
    if exists|v: Json| #[trigger] v.text() == body {
        Some(choose|v: Json| #[trigger] v.text() == body)
    } else {
        None
    }
}

/// Whether `rest` may follow a value: it is over, or goes on with a comma or a
/// bracket.
spec fn closes(rest: Seq<char>) -> bool {
    rest.len() == 0 || rest[0] == ',' || rest[0] == ']' || rest[0] == '}'
}

proof fn lemma_escape_ends(a: Seq<char>, b: Seq<char>, x: Seq<char>, y: Seq<char>)
    requires
        json::escape(a) + seq!['"'] + x == json::escape(b) + seq!['"'] + y,
    ensures
        a == b,
        x == y,
    decreases a.len(),
{
    let left = json::escape(a) + seq!['"'] + x;
    let right = json::escape(b) + seq!['"'] + y;
    if a.len() == 0 || b.len() == 0 {
        if a.len() == 0 {
            assert(left[0] == '"');
        } else {
            assert(left[0] == json::escape_char(a[0])[0]);
        }
        if b.len() == 0 {
            assert(right[0] == '"');
        } else {
            assert(right[0] == json::escape_char(b[0])[0]);
        }
        assert(a.len() == 0 && b.len() == 0);
        assert(a =~= b);
        assert(x =~= left.skip(1));
        assert(y =~= right.skip(1));
    } else {
        let p = json::escape(a.drop_first()) + seq!['"'] + x;
        let q = json::escape(b.drop_first()) + seq!['"'] + y;
        assert(left =~= json::escape_char(a[0]) + p);
        assert(right =~= json::escape_char(b[0]) + q);
        json::lemma_escape_char_is_a_prefix_code(a[0], b[0], p, q);
        lemma_escape_ends(a.drop_first(), b.drop_first(), x, y);
        assert(a =~= seq![a[0]] + a.drop_first());
        assert(b =~= seq![b[0]] + b.drop_first());
    }
}

proof fn lemma_string_ends(a: Seq<char>, b: Seq<char>, x: Seq<char>, y: Seq<char>)
    requires
        json::json_string(a) + x == json::json_string(b) + y,
    ensures
        a == b,
        x == y,
{
    let left = json::json_string(a) + x;
    let right = json::json_string(b) + y;
    assert(left.skip(1) =~= json::escape(a) + seq!['"'] + x);
    assert(right.skip(1) =~= json::escape(b) + seq!['"'] + y);
    lemma_escape_ends(a, b, x, y);
}

proof fn lemma_number_ends(m: nat, n: nat, x: Seq<char>, y: Seq<char>)
    requires
        text::decimal(m) + x == text::decimal(n) + y,
        closes(x),
        closes(y),
    ensures
        m == n,
        x == y,
{
    let a = text::decimal(m);
    let b = text::decimal(n);
    let left = a + x;
    let right = b + y;
    text::decimals_are_read_back(m);
    text::decimals_are_read_back(n);
    if a.len() < b.len() {
        assert(right[a.len() as int] == b[a.len() as int]);
        assert(left[a.len() as int] == x[0]);
        assert(false);
    }
    if b.len() < a.len() {
        assert(left[b.len() as int] == a[b.len() as int]);
        assert(right[b.len() as int] == y[0]);
        assert(false);
    }
    assert(a =~= left.take(a.len() as int));
    assert(b =~= right.take(a.len() as int));
    assert(x =~= left.skip(a.len() as int));
    assert(y =~= right.skip(a.len() as int));
}

/// The kind of a value shows in its first character.
proof fn lemma_first(v: Json)
    ensures
        v.text().len() > 0,
        match v {
            Json::Null => v.text()[0] == 'n',
            Json::Text(_) => v.text()[0] == '"',
            Json::Number(_) => text::digit_value(v.text()[0]) >= 0 && text::digit_value(v.text()[0])
                < 10,
            Json::List(_) => v.text()[0] == '[',
            Json::Object(_) => v.text()[0] == '{',
        },
{
    if let Json::Number(n) = v {
        text::decimals_are_read_back(n);
    }
}

proof fn lemma_value_ends(a: Json, b: Json, x: Seq<char>, y: Seq<char>)
    requires
        a.text() + x == b.text() + y,
        closes(x),
        closes(y),
    ensures
        a == b,
        x == y,
    decreases a,
{
    let left = a.text() + x;
    let right = b.text() + y;
    lemma_first(a);
    lemma_first(b);
    assert(left[0] == a.text()[0] && right[0] == b.text()[0]);
    match (a, b) {
        (Json::Null, Json::Null) => {
            assert(x =~= left.skip(4));
            assert(y =~= right.skip(4));
        },
        (Json::Text(s), Json::Text(t)) => {
            lemma_string_ends(s, t, x, y);
        },
        (Json::Number(m), Json::Number(n)) => {
            lemma_number_ends(m, n, x, y);
        },
        (Json::List(items), Json::List(others)) => {
            assert(left.skip(1) =~= items_text(items) + (seq![']'] + x));
            assert(right.skip(1) =~= items_text(others) + (seq![']'] + y));
            lemma_items_end(items, others, x, y);
        },
        (Json::Object(members), Json::Object(others)) => {
            assert(left.skip(1) =~= members_text(members) + (seq!['}'] + x));
            assert(right.skip(1) =~= members_text(others) + (seq!['}'] + y));
            lemma_members_end(members, others, x, y);
        },
        _ => {
            assert(false);
        },
    }
}

proof fn lemma_items_end(a: Seq<Json>, b: Seq<Json>, x: Seq<char>, y: Seq<char>)
    requires
        items_text(a) + (seq![']'] + x) == items_text(b) + (seq![']'] + y),
    ensures
        a == b,
        x == y,
    decreases a,
{
    let left = items_text(a) + (seq![']'] + x);
    let right = items_text(b) + (seq![']'] + y);
    if a.len() == 0 || b.len() == 0 {
        if a.len() > 0 {
            lemma_first(a[0]);
            assert(left[0] == a[0].text()[0]);
            assert(right[0] == ']');
        }
        if b.len() > 0 {
            lemma_first(b[0]);
            assert(right[0] == b[0].text()[0]);
            assert(left[0] == ']');
        }
        assert(a =~= b);
        assert(x =~= left.skip(1));
        assert(y =~= right.skip(1));
    } else {
        let ra = a.subrange(1, a.len() as int);
        let rb = b.subrange(1, b.len() as int);
        let p = if a.len() == 1 {
            seq![']'] + x
        } else {
            seq![','] + (items_text(ra) + (seq![']'] + x))
        };
        let q = if b.len() == 1 {
            seq![']'] + y
        } else {
            seq![','] + (items_text(rb) + (seq![']'] + y))
        };
        assert(left =~= a[0].text() + p);
        assert(right =~= b[0].text() + q);
        lemma_value_ends(a[0], b[0], p, q);
        assert(p[0] == q[0]);
        if a.len() == 1 {
            assert(b.len() == 1);
            assert(a =~= b);
            assert(x =~= p.skip(1));
            assert(y =~= q.skip(1));
        } else {
            assert(p.skip(1) =~= items_text(ra) + (seq![']'] + x));
            assert(q.skip(1) =~= items_text(rb) + (seq![']'] + y));
            lemma_items_end(ra, rb, x, y);
            assert(a =~= seq![a[0]] + ra);
            assert(b =~= seq![b[0]] + rb);
        }
    }
}

proof fn lemma_members_end(
    a: Seq<(Seq<char>, Json)>,
    b: Seq<(Seq<char>, Json)>,
    x: Seq<char>,
    y: Seq<char>,
)
    requires
        members_text(a) + (seq!['}'] + x) == members_text(b) + (seq!['}'] + y),
    ensures
        a == b,
        x == y,
    decreases a,
{
    let left = members_text(a) + (seq!['}'] + x);
    let right = members_text(b) + (seq!['}'] + y);
    if a.len() == 0 || b.len() == 0 {
        if a.len() > 0 {
            assert(left[0] == '"');
            assert(right[0] == '}');
        }
        if b.len() > 0 {
            assert(right[0] == '"');
            assert(left[0] == '}');
        }
        assert(a =~= b);
        assert(x =~= left.skip(1));
        assert(y =~= right.skip(1));
    } else {
        let ra = a.subrange(1, a.len() as int);
        let rb = b.subrange(1, b.len() as int);
        let p = if a.len() == 1 {
            seq!['}'] + x
        } else {
            seq![','] + (members_text(ra) + (seq!['}'] + x))
        };
        let q = if b.len() == 1 {
            seq!['}'] + y
        } else {
            seq![','] + (members_text(rb) + (seq!['}'] + y))
        };
        let va = a[0].1.text() + p;
        let vb = b[0].1.text() + q;
        assert(left =~= json::json_string(a[0].0) + (seq![':'] + va));
        assert(right =~= json::json_string(b[0].0) + (seq![':'] + vb));
        lemma_string_ends(a[0].0, b[0].0, seq![':'] + va, seq![':'] + vb);
        assert(va =~= (seq![':'] + va).skip(1));
        assert(vb =~= (seq![':'] + vb).skip(1));
        lemma_value_ends(a[0].1, b[0].1, p, q);
        assert(p[0] == q[0]);
        if a.len() == 1 {
            assert(b.len() == 1);
            assert(a =~= b);
            assert(x =~= p.skip(1));
            assert(y =~= q.skip(1));
        } else {
            assert(p.skip(1) =~= members_text(ra) + (seq!['}'] + x));
            assert(q.skip(1) =~= members_text(rb) + (seq!['}'] + y));
            lemma_members_end(ra, rb, x, y);
            assert(a =~= seq![a[0]] + ra);
            assert(b =~= seq![b[0]] + rb);
        }
    }
}

/// A value is read back from its text: no two values are written alike.
pub proof fn values_are_read_back(v: Json)
    ensures
        read(v.text()) == Some(v),
{
    assert(v.text() == v.text());
    let w = choose|w: Json| #[trigger] w.text() == v.text();
    let end = Seq::<char>::empty();
    assert(v.text() + end =~= v.text());
    assert(w.text() + end =~= w.text());
    lemma_value_ends(v, w, end, end);
}

/// The member called `name` of a value that may not be there.
pub open spec fn at(v: Option<Json>, name: Seq<char>) -> Option<Json> {
    match v {
        Some(v) => v.member(name),
        None => None,
    }
}

/// The item at `index` of a value that may not be there.
pub open spec fn nth(v: Option<Json>, index: int) -> Option<Json> {
    match v {
        Some(v) => v.item(index),
        None => None,
    }
}

/// Nothing in `s` needs to be escaped.
pub open spec fn plain(s: Seq<char>) -> bool {
    forall|i: int|
        0 <= i < s.len() ==> (#[trigger] s[i]) as u32 >= 0x20 && s[i] != '"' && s[i] != '\\'
}

/// A plain text is written as it is, between quotes.
pub proof fn lemma_plain(s: Seq<char>)
    requires
        plain(s),
    ensures
        json::json_string(s) == seq!['"'] + s + seq!['"'],
    decreases s.len(),
{
    if s.len() > 0 {
        let rest = s.drop_first();
        assert forall|i: int| 0 <= i < rest.len() implies (#[trigger] rest[i]) as u32 >= 0x20
            && rest[i] != '"' && rest[i] != '\\' by {
            assert(rest[i] == s[i + 1]);
        }
        lemma_plain(rest);
        assert(json::escape(rest) =~= json::json_string(rest).subrange(
            1,
            json::json_string(rest).len() - 1,
        ));
        assert(json::escape(rest) =~= rest);
        assert(json::escape(s) =~= s);
    } else {
        assert(json::escape(s) =~= s);
    }
}

/// The first member that is called `name` is the one that is found.
pub proof fn lemma_member(members: Seq<(Seq<char>, Json)>, name: Seq<char>, i: int)
    requires
        is_at(members, name, i),
    ensures
        Json::Object(members).member(name) == Some(members[i].1),
{
    let k = choose|k: int| is_at(members, name, k);
    if k < i {
        assert(members[k].0 == name);
    } else if i < k {
        assert(members[i].0 == name);
    }
}

/// An object with one member.
pub proof fn lemma_one_member(name: Seq<char>, value: Json)
    ensures
        members_text(seq![(name, value)]) == member_text(name, value.text()),
{
}

/// An object with a member and others behind it.
pub proof fn lemma_first_member(name: Seq<char>, value: Json, rest: Seq<(Seq<char>, Json)>)
    requires
        rest.len() > 0,
    ensures
        members_text(seq![(name, value)] + rest) == member_text(name, value.text()) + seq![',']
            + members_text(rest),
{
    let all = seq![(name, value)] + rest;
    assert(all.subrange(1, all.len() as int) =~= rest);
}

/// A list with one item.
pub proof fn lemma_one_item(value: Json)
    ensures
        items_text(seq![value]) == value.text(),
{
}

/// It does not matter where a text is put together first.
pub broadcast proof fn texts_are_put_together_in_any_order(
    a: Seq<char>,
    b: Seq<char>,
    c: Seq<char>,
)
    ensures
        #[trigger] (a + (b + c)) == a + b + c,
{
    assert(a + (b + c) =~= a + b + c);
}

} // verus!

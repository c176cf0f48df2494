//! Strings as JSON: what `serde_json` writes for a piece of text.

use vstd::prelude::*;

use crate::text;

pub mod values;

verus! {

/// How one character appears inside a JSON string. Quotes, backslashes and
/// control characters are escaped; everything else stands for itself.
pub open spec fn escape_char(c: char) -> Seq<char> {
    let code = c as u32;
    if c == '"' {
        seq!['\\', '"']
    } else if c == '\\' {
        seq!['\\', '\\']
    } else if code == 0x08 {
        seq!['\\', 'b']
    } else if code == 0x09 {
        seq!['\\', 't']
    } else if code == 0x0a {
        seq!['\\', 'n']
    } else if code == 0x0c {
        seq!['\\', 'f']
    } else if code == 0x0d {
        seq!['\\', 'r']
    } else if code < 0x20 {
        seq![
            '\\',
            'u',
            '0',
            '0',
            text::digit_char((code / 16) as nat),
            text::digit_char((code % 16) as nat),
        ]
    } else {
        seq![c]
    }
}

/// `s` with every character escaped.
pub open spec fn escape(s: Seq<char>) -> Seq<char>
    decreases s.len(),
{
    if s.len() == 0 {
        Seq::empty()
    } else {
        escape_char(s[0]) + escape(s.drop_first())
    }
}

/// `s` as a JSON string, quotes included.
pub open spec fn json_string(s: Seq<char>) -> Seq<char> {
    seq!['"'] + escape(s) + seq!['"']
}

/// No character of `s` is a control character.
pub open spec fn printable(s: Seq<char>) -> bool {
    forall|i: int| 0 <= i < s.len() ==> #[trigger] s[i] as u32 >= 0x20
}

/// `serde_json::to_string` on a string. Taken on trust: it always succeeds,
/// and what it writes is the text between quotes, with `"`, `\` and the
/// control characters escaped in the short form where JSON has one and as
/// `\u00xx` in lower case otherwise.
#[verifier::external_body]
pub(crate) fn quote(text: &str) -> (json: String)
    ensures
        json@ == json_string(text@),
{
    serde_json::to_string(text).expect("a string is serializable")
}

proof fn lemma_escape_printable(s: Seq<char>)
    ensures
        printable(escape(s)),
    decreases s.len(),
{
    if s.len() > 0 {
        lemma_escape_printable(s.drop_first());
        let head = escape_char(s[0]);
        let code = s[0] as u32;
        assert(printable(head));
        let tail = escape(s.drop_first());
        assert forall|i: int| 0 <= i < escape(s).len() implies #[trigger] escape(s)[i] as u32
            >= 0x20 by {
            if i < head.len() {
                assert(escape(s)[i] == head[i]);
            } else {
                assert(escape(s)[i] == tail[i - head.len()]);
            }
        }
    }
}

/// A JSON string holds no control character, so in particular no line break,
/// whatever text it was made from.
pub proof fn json_strings_are_printable(s: Seq<char>)
    ensures
        printable(json_string(s)),
{
    lemma_escape_printable(s);
    let inner = escape(s);
    assert forall|i: int| 0 <= i < json_string(s).len() implies #[trigger] json_string(s)[i] as u32
        >= 0x20 by {
        if 0 < i && i <= inner.len() {
            assert(json_string(s)[i] == inner[i - 1]);
        }
    }
}

/// Where the escape of one character ends shows from the escape itself.
pub proof fn lemma_escape_char_is_a_prefix_code(a: char, b: char, x: Seq<char>, y: Seq<char>)
    requires
        escape_char(a) + x == escape_char(b) + y,
    ensures
        a == b,
        x == y,
{
    let ea = escape_char(a);
    let eb = escape_char(b);
    let whole = ea + x;
    assert(whole == eb + y);
    assert(whole[0] == ea[0]);
    assert(whole[0] == eb[0]);
    if ea[0] == '\\' {
        assert(whole[1] == ea[1]);
        assert(whole[1] == eb[1]);
        if ea[1] == 'u' {
            assert(whole[4] == ea[4] && whole[5] == ea[5]);
            assert(whole[4] == eb[4] && whole[5] == eb[5]);
            assert((a as u32) / 16 == (b as u32) / 16);
            assert((a as u32) % 16 == (b as u32) % 16);
        }
    }
    assert(a == b);
    assert(x =~= whole.skip(ea.len() as int));
    assert(y =~= whole.skip(eb.len() as int));
}

proof fn lemma_escape_injective(a: Seq<char>, b: Seq<char>)
    requires
        escape(a) == escape(b),
    ensures
        a == b,
    decreases a.len(),
{
    if a.len() == 0 {
        if b.len() > 0 {
            assert(escape_char(b[0]).len() > 0);
            assert(escape(b).len() > 0);
        }
        assert(a =~= b);
    } else {
        assert(escape_char(a[0]).len() > 0);
        assert(escape(a).len() > 0);
        assert(b.len() > 0);
        lemma_escape_char_is_a_prefix_code(
            a[0],
            b[0],
            escape(a.drop_first()),
            escape(b.drop_first()),
        );
        lemma_escape_injective(a.drop_first(), b.drop_first());
        assert(a =~= seq![a[0]] + a.drop_first());
        assert(b =~= seq![b[0]] + b.drop_first());
    }
}

/// Two texts with the same JSON string are the same text: a client that reads
/// the string back gets exactly what was written.
pub proof fn json_strings_are_distinct(a: Seq<char>, b: Seq<char>)
    requires
        json_string(a) == json_string(b),
    ensures
        a == b,
{
    assert(escape(a) =~= json_string(a).subrange(1, json_string(a).len() - 1));
    assert(escape(b) =~= json_string(b).subrange(1, json_string(b).len() - 1));
    lemma_escape_injective(a, b);
}

} // verus!

//! JSON text for records and listings.
//!
//! The encoder renders a record as the canonical object
//! `{"title":...,"icon":...}`, escaping the two field texts as JSON string
//! literals; listings of already-rendered documents are framed as a JSON
//! array.

use vstd::prelude::*;
use vstd::string::*;
use crate::chars::hex_digit_char;
use crate::record::{Record, RecordView};

verus! {

/// The escape of one character inside a JSON string literal: quotes,
/// backslashes and the named control characters take their two-character
/// escapes, the remaining control characters take a `\u00XX` escape, and
/// every other character stands as itself.
pub open spec fn escape_char(c: char) -> Seq<char> {
    if c == '"' {
        seq!['\\', '"']
    } else if c == '\\' {
        seq!['\\', '\\']
    } else if c == '\u{8}' {
        seq!['\\', 'b']
    } else if c == '\u{c}' {
        seq!['\\', 'f']
    } else if c == '\n' {
        seq!['\\', 'n']
    } else if c == '\r' {
        seq!['\\', 'r']
    } else if c == '\t' {
        seq!['\\', 't']
    } else if (c as u32) < 32 {
        seq!['\\', 'u', '0', '0', hex_digit_char((c as u32 / 16) as nat), hex_digit_char((c as u32 % 16) as nat)]
    } else {
        seq![c]
    }
}

/// The body of a JSON string literal for the text `s`: each character
/// escaped in turn.
pub open spec fn escape_text(s: Seq<char>) -> Seq<char>
    decreases s.len(),
{
    if s.len() == 0 {
        Seq::empty()
    } else {
        escape_char(s.first()) + escape_text(s.drop_first())
    }
}

/// The JSON string literal for the text `s`.
pub open spec fn json_string(s: Seq<char>) -> Seq<char> {
    seq!['"'] + escape_text(s) + seq!['"']
}

/// The JSON object text for a record, fields in declaration order.
pub open spec fn record_json(r: RecordView) -> Seq<char> {
    "{\"title\":"@ + json_string(r.title) + ",\"icon\":"@ + json_string(r.icon) + "}"@
}

/// The comma-separated joint of already-rendered document texts.
pub open spec fn join_texts(items: Seq<Seq<char>>) -> Seq<char>
    decreases items.len(),
{
    if items.len() == 0 {
        Seq::empty()
    } else if items.len() == 1 {
        items[0]
    } else {
        join_texts(items.drop_last()) + seq![','] + items.last()
    }
}

/// The JSON array text framing already-rendered document texts.
pub open spec fn json_array_text(items: Seq<Seq<char>>) -> Seq<char> {
    seq!['['] + join_texts(items) + seq![']']
}

/// Escaping distributes over concatenation of texts.
pub proof fn lemma_escape_concat(a: Seq<char>, b: Seq<char>)
    ensures
        escape_text(a + b) == escape_text(a) + escape_text(b),
    decreases a.len(),
{
    if a.len() == 0 {
        assert(a + b =~= b);
        assert(escape_text(a) + escape_text(b) =~= escape_text(b));
    } else {
        lemma_escape_concat(a.drop_first(), b);
        assert((a + b).drop_first() =~= a.drop_first() + b);
        assert(escape_char(a.first()) + (escape_text(a.drop_first()) + escape_text(b))
            =~= (escape_char(a.first()) + escape_text(a.drop_first())) + escape_text(b));
    }
}

/// A character that stands as itself inside a JSON string literal.
pub open spec fn plain_char(c: char) -> bool {
    c != '"' && c != '\\' && c as u32 >= 32
}

/// A text whose characters all stand as themselves.
pub open spec fn plain_text(s: Seq<char>) -> bool {
    forall|j: int| 0 <= j < s.len() ==> plain_char(#[trigger] s[j])
}

/// Escaping leaves a plain text unchanged.
pub proof fn lemma_escape_plain(s: Seq<char>)
    requires
        plain_text(s),
    ensures
        escape_text(s) == s,
    decreases s.len(),
{
    if s.len() == 0 {
        assert(escape_text(s) =~= s);
    } else {
        assert(plain_char(s[0]));
        assert forall|j: int| 0 <= j < s.drop_first().len() implies plain_char(
            #[trigger] s.drop_first()[j],
        ) by {
            assert(s.drop_first()[j] == s[j + 1]);
        }
        lemma_escape_plain(s.drop_first());
        assert(escape_char(s.first()) =~= seq![s.first()]);
        assert(escape_text(s) =~= s);
    }
}

/// An empty listing renders as the empty JSON array.
pub proof fn lemma_empty_listing()
    ensures
        json_array_text(Seq::<Seq<char>>::empty()) == "[]"@,
{
    reveal_strlit("[]");
    assert(json_array_text(Seq::<Seq<char>>::empty()) =~= "[]"@);
}

/// Escaping a single character gives exactly its escape.
pub proof fn lemma_escape_one(c: char)
    ensures
        escape_text(seq![c]) == escape_char(c),
{
    assert(seq![c].len() == 1);
    assert(seq![c].first() == c);
    assert(seq![c].drop_first() =~= Seq::<char>::empty());
    assert(escape_text(Seq::<char>::empty()) == Seq::<char>::empty());
    assert(escape_text(seq![c]) == escape_char(c) + escape_text(Seq::<char>::empty()));
    assert(escape_char(c) + Seq::<char>::empty() =~= escape_char(c));
}

/// Appends the escaped form of `s` to `out`.
fn escape_into(out: &mut String, s: &str)
    ensures
        final(out)@ == old(out)@ + escape_text(s@),
{
    let n = s.unicode_len();
    let mut i: usize = 0;
    proof {
        assert(s@.take(0) =~= Seq::<char>::empty());
        assert(out@ + escape_text(s@.take(0)) =~= out@);
    }
    while i < n
        invariant
            n == s@.len(),
            i <= n,
            out@ == old(out)@ + escape_text(s@.take(i as int)),
        decreases n - i,
    {
        let c = s.get_char(i);
        let ghost prev = out@;
        let code = c as u32;
        if c == '"' {
            out.push('\\');
            out.push('"');
        } else if c == '\\' {
            out.push('\\');
            out.push('\\');
        } else if code == 8 {
            out.push('\\');
            out.push('b');
        } else if code == 12 {
            out.push('\\');
            out.push('f');
        } else if code == 10 {
            out.push('\\');
            out.push('n');
        } else if code == 13 {
            out.push('\\');
            out.push('r');
        } else if code == 9 {
            out.push('\\');
            out.push('t');
        } else if code < 32 {
            out.push('\\');
            out.push('u');
            out.push('0');
            out.push('0');
            out.push(crate::chars::hex_char_of(code / 16));
            out.push(crate::chars::hex_char_of(code % 16));
        } else {
            out.push(c);
        }
        proof {
            assert(out@ =~= prev + escape_char(c));
            lemma_escape_concat(s@.take(i as int), seq![c]);
            lemma_escape_one(c);
            assert(s@.take(i as int) + seq![c] =~= s@.take(i as int + 1));
            assert(out@ =~= old(out)@ + escape_text(s@.take(i as int + 1)));
        }
        i = i + 1;
    }
    proof {
        assert(s@.take(n as int) =~= s@);
    }
}

/// Renders a record as its canonical JSON object text.
pub fn record_to_json(r: &Record) -> (out: String)
    ensures
        out@ == record_json(r@),
{
    let mut out: String = "{\"title\":".to_owned();
    out.push('"');
    escape_into(&mut out, r.title.as_str());
    out.push('"');
    out.append(",\"icon\":");
    out.push('"');
    escape_into(&mut out, r.icon.as_str());
    out.push('"');
    out.push('}');
    proof {
        reveal_strlit("}");
        assert("}"@ =~= seq!['}']);
        assert(out@ =~= record_json(r@));
    }
    out
}

/// Joining grows by a comma and the new text once an item precedes it.
proof fn lemma_join_snoc(items: Seq<Seq<char>>, i: int)
    requires
        0 <= i < items.len(),
    ensures
        i == 0 ==> join_texts(items.take(1)) == items[0],
        i > 0 ==> join_texts(items.take(i + 1)) == join_texts(items.take(i)) + seq![','] + items[i],
{
    if i == 0 {
        assert(join_texts(items.take(1)) == items.take(1)[0]);
        assert(items.take(1)[0] == items[0]);
    } else {
        let t = items.take(i + 1);
        assert(t.len() == i + 1 >= 2);
        assert(t.drop_last() =~= items.take(i));
        assert(t.last() == items[i]);
    }
}

/// Frames already-rendered document texts as a JSON array.
pub fn json_array(items: &Vec<String>) -> (out: String)
    ensures
        out@ == json_array_text(items@.map_values(|s: String| s@)),
{
    let ghost texts = items@.map_values(|s: String| s@);
    let mut out = String::new();
    out.push('[');
    let mut i: usize = 0;
    proof {
        assert(texts.take(0) =~= Seq::<Seq<char>>::empty());
        assert(out@ =~= seq!['['] + join_texts(texts.take(0)));
    }
    while i < items.len()
        invariant
            items@.len() == texts.len(),
            texts == items@.map_values(|s: String| s@),
            i <= items.len(),
            out@ == seq!['['] + join_texts(texts.take(i as int)),
        decreases items@.len() - i,
    {
        let ghost prev = out@;
        if i > 0 {
            out.push(',');
        }
        out.append(items[i].as_str());
        proof {
            lemma_join_snoc(texts, i as int);
            assert(texts[i as int] == items@[i as int]@);
            if i > 0 {
                assert(out@ =~= seq!['['] + join_texts(texts.take(i as int + 1)));
            } else {
                assert(out@ =~= seq!['['] + join_texts(texts.take(1)));
            }
        }
        i = i + 1;
    }
    out.push(']');
    proof {
        assert(texts.take(i as int) =~= texts);
        assert(out@ =~= json_array_text(texts));
    }
    out
}

} // verus!

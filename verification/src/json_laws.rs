//! How JSON values are written: laws over all of them.
use vstd::prelude::*;
use crate::json;
use crate::json::JsonTree;
use crate::plan::format_laws;

verus! {

/// Inside a string, quotes, backslashes and the ends of lines and tabs stand behind a
/// backslash, any other control character as its code in hexadecimal, and everything else
/// as it is: no control character is written as such.
pub proof fn lemma_escaped(c: char)
    ensures
        c == '"' ==> json::escaped(c) == seq!['\\', '"'],
        c == '\\' ==> json::escaped(c) == seq!['\\', '\\'],
        c == '\n' ==> json::escaped(c) == seq!['\\', 'n'],
        c == '\r' ==> json::escaped(c) == seq!['\\', 'r'],
        c == '\t' ==> json::escaped(c) == seq!['\\', 't'],
        (c as u32) < 0x20 && c != '\n' && c != '\r' && c != '\t' ==> {
            let s = json::escaped(c);
            &&& s.len() == 6
            &&& s.take(4) == seq!['\\', 'u', '0', '0']
            &&& 16 * format_laws::hex_value(s[4]) + format_laws::hex_value(s[5]) == c as int
        },
        (c as u32) >= 0x20 && c != '"' && c != '\\' ==> json::escaped(c) == seq![c],
{
    if (c as u32) < 0x20 {
        assert(json::escaped(c).len() == 6 ==> json::escaped(c).take(4) =~= seq!['\\', 'u', '0', '0']);
    }
}

/// A string is written in quotes, character by character.
pub proof fn lemma_quoted(s: Seq<char>, c: char)
    ensures
        json::quoted(seq![]) == seq!['"', '"'],
        json::quoted(s.push(c)) == json::quoted(s).drop_last() + json::escaped(c) + seq!['"'],
        json::render(JsonTree::String(s)) == json::quoted(s),
{
    reveal_with_fuel(json::escaped_text, 2);
    assert(s.push(c).drop_last() =~= s);
    assert(json::quoted(seq![]) =~= seq!['"', '"']);
    assert(json::quoted(s).drop_last() =~= seq!['"'] + json::escaped_text(s));
    assert(json::quoted(s.push(c)) =~= json::quoted(s).drop_last() + json::escaped(c) + seq!['"']);
}

/// Literals and numbers are written as they are.
pub proof fn lemma_literals(digits: Seq<char>)
    ensures
        json::render(JsonTree::Null) == "null"@,
        json::render(JsonTree::Bool(true)) == "true"@,
        json::render(JsonTree::Bool(false)) == "false"@,
        json::render(JsonTree::Number(digits)) == digits,
        json::render(JsonTree::Array(seq![])) == "[]"@,
        json::render(JsonTree::Object(seq![])) == "{}"@,
{
    reveal_strlit("null");
    reveal_strlit("true");
    reveal_strlit("false");
    reveal_strlit("[]");
    reveal_strlit("{}");
    assert(json::render(JsonTree::Null) =~= "null"@);
    assert(json::render(JsonTree::Bool(true)) =~= "true"@);
    assert(json::render(JsonTree::Bool(false)) =~= "false"@);
    reveal_with_fuel(json::render_items, 2);
    reveal_with_fuel(json::render_fields, 2);
    assert(json::render(JsonTree::Array(seq![])) =~= "[]"@);
    assert(json::render(JsonTree::Object(seq![])) =~= "{}"@);
}

proof fn lemma_items_ahead(items: Seq<JsonTree>, t: JsonTree, n: nat)
    requires
        n <= items.len(),
    ensures
        json::render_items(items.push(t), n) == json::render_items(items, n),
    decreases n,
{
    if n > 0 {
        lemma_items_ahead(items, t, (n - 1) as nat);
    }
}

proof fn lemma_fields_ahead(fields: Seq<(Seq<char>, JsonTree)>, f: (Seq<char>, JsonTree), n: nat)
    requires
        n <= fields.len(),
    ensures
        json::render_fields(fields.push(f), n) == json::render_fields(fields, n),
    decreases n,
{
    if n > 0 {
        lemma_fields_ahead(fields, f, (n - 1) as nat);
    }
}

/// An array is written in brackets and an object in braces, with commas between their
/// parts and nothing else; a field is its name, quoted, a colon and its value.
pub proof fn lemma_parts(items: Seq<JsonTree>, t: JsonTree, fields: Seq<(Seq<char>, JsonTree)>, name: Seq<char>)
    ensures
        json::render(JsonTree::Array(seq![t])) == seq!['['] + json::render(t) + seq![']'],
        items.len() > 0 ==> json::render(JsonTree::Array(items.push(t))) == json::render(JsonTree::Array(items)).drop_last() + seq![','] + json::render(
            t,
        ) + seq![']'],
        json::render(JsonTree::Object(seq![(name, t)])) == seq!['{'] + json::quoted(name) + seq![':'] + json::render(t) + seq!['}'],
        fields.len() > 0 ==> json::render(JsonTree::Object(fields.push((name, t)))) == json::render(JsonTree::Object(fields)).drop_last() + seq![
            ',',
        ] + json::quoted(name) + seq![':'] + json::render(t) + seq!['}'],
{
    reveal_with_fuel(json::render, 2);
    reveal_with_fuel(json::render_items, 2);
    reveal_with_fuel(json::render_fields, 2);
    assert(json::render(JsonTree::Array(seq![t])) =~= seq!['['] + json::render(t) + seq![']']);
    assert(json::render(JsonTree::Object(seq![(name, t)])) =~= seq!['{'] + json::quoted(name) + seq![':'] + json::render(t) + seq!['}']);
    if items.len() > 0 {
        lemma_items_ahead(items, t, items.len());
        assert(json::render(JsonTree::Array(items)).drop_last() =~= seq!['['] + json::render_items(items, items.len()));
        assert(json::render(JsonTree::Array(items.push(t))) =~= json::render(JsonTree::Array(items)).drop_last() + seq![','] + json::render(t)
            + seq![']']);
    }
    if fields.len() > 0 {
        lemma_fields_ahead(fields, (name, t), fields.len());
        assert(json::render(JsonTree::Object(fields)).drop_last() =~= seq!['{'] + json::render_fields(fields, fields.len()));
        assert(json::render(JsonTree::Object(fields.push((name, t)))) =~= json::render(JsonTree::Object(fields)).drop_last() + seq![',']
            + json::quoted(name) + seq![':'] + json::render(t) + seq!['}']);
    }
}

/// A number of a value is read from a JSON number alone, and a text from a string alone.
pub proof fn lemma_scalars(n: u64, s: Seq<char>, t: JsonTree)
    ensures
        json::number(JsonTree::Number(crate::text::decimal(n as int))) == Some(n),
        !(t is Number) ==> json::number(t) is None,
        json::string(JsonTree::String(s)) == Some(s),
        !(t is String) ==> json::string(t) is None,
{
    crate::text::lemma_parse_decimal(n as int, u64::MAX as nat);
}

} // verus!

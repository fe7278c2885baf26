//! The names of methods, in the cases that Rust and TypeScript write them in.
use vstd::prelude::*;
use crate::text::{chars_of, text_of};

verus! {

/// Whether std's tables have a character as an upper-case letter.
pub uninterp spec fn table_is_upper(c: char) -> bool;

/// The upper-case form that std's tables give of a character.
pub uninterp spec fn table_upper(c: char) -> Seq<char>;

/// The lower-case form that std's tables give of a character.
pub uninterp spec fn table_lower(c: char) -> Seq<char>;

pub open spec fn is_ascii(c: char) -> bool {
    (c as u32) < 128
}

pub open spec fn ascii_upper(c: char) -> bool {
    'A' <= c && c <= 'Z'
}

pub open spec fn ascii_lower(c: char) -> bool {
    'a' <= c && c <= 'z'
}

/// Whether a character is an upper-case letter: on ASCII, `A` to `Z`.
pub open spec fn is_upper(c: char) -> bool {
    if is_ascii(c) { ascii_upper(c) } else { table_is_upper(c) }
}

/// The upper-case form of a character. On ASCII, that of `a` to `z` stands 32 places
/// before the letter, and any other character is its own.
pub open spec fn upper(c: char) -> Seq<char> {
    if !is_ascii(c) {
        table_upper(c)
    } else if ascii_lower(c) {
        seq![(c as u32 - 32) as char]
    } else {
        seq![c]
    }
}

/// The lower-case form of a character. On ASCII, that of `A` to `Z` stands 32 places
/// behind the letter, and any other character is its own.
pub open spec fn lower(c: char) -> Seq<char> {
    if !is_ascii(c) {
        table_lower(c)
    } else if ascii_upper(c) {
        seq![(c as u32 + 32) as char]
    } else {
        seq![c]
    }
}

/// Whether a character is an upper-case letter, by `char::is_uppercase`; on ASCII those
/// are `A` to `Z`.
#[verifier::external_body]
fn char_is_upper(c: char) -> (r: bool)
    ensures
        r == is_upper(c),
        !is_ascii(c) ==> r == table_is_upper(c),
{
    c.is_uppercase()
}

/// The upper-case form of a character, by `char::to_uppercase`: one or more characters,
/// on ASCII the one letter.
#[verifier::external_body]
fn char_upper(c: char) -> (r: Vec<char>)
    ensures
        r@ == upper(c),
        !is_ascii(c) ==> r@ == table_upper(c),
{
    c.to_uppercase().collect()
}

/// The lower-case form of a character, by `char::to_lowercase`: one or more characters,
/// on ASCII the one letter.
#[verifier::external_body]
fn char_lower(c: char) -> (r: Vec<char>)
    ensures
        r@ == lower(c),
        !is_ascii(c) ==> r@ == table_lower(c),
{
    c.to_lowercase().collect()
}

/* ─────────────── meaning ─────────────── */

/// What becomes of the character at `i` in camel case: an underscore goes, and what
/// follows one is upper-case.
pub open spec fn camel_part(s: Seq<char>, i: int) -> Seq<char> {
    if s[i] == '_' {
        Seq::empty()
    } else if i > 0 && s[i - 1] == '_' {
        upper(s[i])
    } else {
        seq![s[i]]
    }
}

/// The first `n` characters of a snake_case name in camel case.
pub open spec fn camel(s: Seq<char>, n: nat) -> Seq<char>
    decreases n,
{
    if n == 0 {
        Seq::empty()
    } else {
        camel(s, (n - 1) as nat) + camel_part(s, n - 1)
    }
}

/// What becomes of the character at `i` in snake_case: an upper-case letter is
/// lower-case, behind an underscore unless it is the first.
pub open spec fn snake_part(s: Seq<char>, i: int) -> Seq<char> {
    if is_upper(s[i]) {
        if i > 0 {
            seq!['_'] + lower(s[i])
        } else {
            lower(s[i])
        }
    } else {
        seq![s[i]]
    }
}

/// The first `n` characters of a name in snake_case.
pub open spec fn snake(s: Seq<char>, n: nat) -> Seq<char>
    decreases n,
{
    if n == 0 {
        Seq::empty()
    } else {
        snake(s, (n - 1) as nat) + snake_part(s, n - 1)
    }
}

/// A name with its first letter lower-case.
pub open spec fn lower_camel(s: Seq<char>) -> Seq<char> {
    if s.len() == 0 {
        s
    } else {
        lower(s[0]) + s.drop_first()
    }
}

/* ─────────────── conversion ─────────────── */

fn push_all(out: &mut Vec<char>, more: &Vec<char>)
    ensures
        final(out)@ == old(out)@ + more@,
{
    let ghost before = out@;
    let n: usize = more.len();
    for i in 0..n
        invariant
            n == more@.len(),
            out@ == before + more@.take(i as int),
    {
        out.push(more[i]);
        assert(out@ =~= before + more@.take(i + 1));
    }
    assert(more@.take(n as int) =~= more@);
}

/// `get_total_supply` -> `getTotalSupply`.
pub fn snake_to_camel(s: &str) -> (r: String)
    ensures
        r@ == camel(s@, s@.len()),
{
    let cs = chars_of(s);
    let n: usize = cs.len();
    let mut out: Vec<char> = Vec::new();
    let mut upper_next = false;
    for i in 0..n
        invariant
            n == cs@.len(),
            cs@ == s@,
            out@ == camel(s@, i as nat),
            upper_next == (i > 0 && s@[i - 1] == '_'),
    {
        let c = cs[i];
        if c == '_' {
            upper_next = true;
            assert(out@ =~= camel(s@, (i + 1) as nat));
        } else if upper_next {
            let more = char_upper(c);
            push_all(&mut out, &more);
            upper_next = false;
            assert(out@ =~= camel(s@, (i + 1) as nat));
        } else {
            out.push(c);
            assert(out@ =~= camel(s@, (i + 1) as nat));
        }
    }
    text_of(out.as_slice())
}

/// `GetTotalSupply` -> `get_total_supply`.
pub fn to_snake_case(ident: &str) -> (r: String)
    ensures
        r@ == snake(ident@, ident@.len()),
{
    let cs = chars_of(ident);
    let n: usize = cs.len();
    let mut out: Vec<char> = Vec::new();
    for i in 0..n
        invariant
            n == cs@.len(),
            cs@ == ident@,
            out@ == snake(ident@, i as nat),
    {
        let c = cs[i];
        if char_is_upper(c) {
            if i > 0 {
                out.push('_');
            }
            let more = char_lower(c);
            push_all(&mut out, &more);
        } else {
            out.push(c);
        }
        assert(out@ =~= snake(ident@, (i + 1) as nat));
    }
    text_of(out.as_slice())
}

/// `GetTotalSupply` -> `getTotalSupply` (the name the TS client exposes).
pub fn to_lower_camel_case(ident: &str) -> (r: String)
    ensures
        r@ == lower_camel(ident@),
{
    let cs = chars_of(ident);
    let n: usize = cs.len();
    if n == 0 {
        return text_of(cs.as_slice());
    }
    let mut out = char_lower(cs[0]);
    let ghost first = out@;
    assert(out@ =~= first + cs@.subrange(1, 1));
    for i in 1..n
        invariant
            n == cs@.len(),
            out@ == first + cs@.subrange(1, i as int),
    {
        out.push(cs[i]);
        assert(out@ =~= first + cs@.subrange(1, i + 1));
    }
    assert(cs@.subrange(1, n as int) =~= cs@.drop_first());
    text_of(out.as_slice())
}

/* ─────────────── laws ─────────────── */

/// Whether a name is made of ASCII characters, without an underscore.
pub open spec fn plain_name(s: Seq<char>) -> bool {
    forall|i: int| 0 <= i < s.len() ==> is_ascii(#[trigger] s[i]) && s[i] != '_'
}

proof fn lemma_camel_of_prefix(a: Seq<char>, b: Seq<char>, n: nat)
    requires
        n <= a.len(),
    ensures
        camel(a + b, n) == camel(a, n),
    decreases n,
{
    if n > 0 {
        lemma_camel_of_prefix(a, b, (n - 1) as nat);
        assert((a + b)[n - 1] == a[n - 1]);
        if n > 1 {
            assert((a + b)[n - 2] == a[n - 2]);
        }
    }
}

proof fn lemma_last_is_no_underscore(s: Seq<char>, n: nat)
    requires
        plain_name(s),
        0 < n <= s.len(),
    ensures
        snake(s, n).len() > 0,
        snake(s, n).last() != '_',
{
    assert(is_ascii(s[n - 1]) && s[n - 1] != '_');
    let part = snake_part(s, n - 1);
    assert(part.len() > 0);
    assert(part.last() != '_');
    assert(snake(s, n).last() == part.last());
}

proof fn lemma_camel_of_snake(s: Seq<char>, n: nat)
    requires
        plain_name(s),
        n <= s.len(),
    ensures
        camel(snake(s, n), snake(s, n).len()) == lower_camel(s.take(n as int)),
    decreases n,
{
    if n > 0 {
        lemma_camel_of_snake(s, (n - 1) as nat);
        let c = s[n - 1];
        assert(is_ascii(c) && c != '_');
        let a = snake(s, (n - 1) as nat);
        let part = snake_part(s, n - 1);
        let whole = snake(s, n);
        assert(whole == a + part);
        lemma_camel_of_prefix(a, part, a.len());
        assert(camel(whole, a.len()) == lower_camel(s.take(n - 1)));
        let low = lower(c)[0];
        assert(lower(c) == seq![low]);
        if n == 1 {
            assert(a =~= Seq::empty());
            assert(whole =~= seq![low] || whole =~= seq![c]);
            assert(whole =~= lower(c));
            reveal_with_fuel(camel, 2);
            assert(camel(whole, 1) =~= lower(c));
            assert(lower_camel(s.take(1)) =~= lower(c));
        } else {
            lemma_last_is_no_underscore(s, (n - 1) as nat);
            assert(lower_camel(s.take(n as int)) =~= lower_camel(s.take(n - 1)) + seq![c]);
            if is_upper(c) {
                assert(whole =~= a + seq!['_', low]);
                assert(whole[whole.len() - 2] == '_');
                assert(whole[whole.len() - 1] == low);
                assert(upper(low) =~= seq![c]);
                assert(camel(whole, (a.len() + 1) as nat) =~= camel(whole, a.len()));
                assert(camel(whole, (a.len() + 2) as nat) =~= camel(whole, (a.len() + 1) as nat) + upper(low));
            } else {
                assert(whole =~= a + seq![c]);
                assert(whole[whole.len() - 1] == c);
                assert(whole[whole.len() - 2] == a.last());
                assert(camel(whole, (a.len() + 1) as nat) =~= camel(whole, a.len()) + seq![c]);
            }
        }
    } else {
        assert(s.take(0) =~= Seq::empty());
    }
}

/// The two names of a method agree: what a contract calls a variant in snake_case is,
/// in camel case, the name that the TS client exposes it by.
pub proof fn lemma_names_agree(s: Seq<char>)
    requires
        plain_name(s),
    ensures
        camel(snake(s, s.len()), snake(s, s.len()).len()) == lower_camel(s),
{
    lemma_camel_of_snake(s, s.len());
    assert(s.take(s.len() as int) =~= s);
}

/// A letter has its upper-case form in the same place of the alphabet.
pub proof fn lemma_letters(c: char)
    ensures
        'a' <= c && c <= 'z' ==> (upper(c).len() == 1 && upper(c)[0] as int - 'A' as int == c as int - 'a' as int),
        'A' <= c && c <= 'Z' ==> (lower(c).len() == 1 && lower(c)[0] as int - 'a' as int == c as int - 'A' as int),
        is_ascii(c) && !('a' <= c && c <= 'z') ==> upper(c) == seq![c],
        is_ascii(c) && !('A' <= c && c <= 'Z') ==> lower(c) == seq![c],
        is_ascii(c) ==> (is_upper(c) <==> 'A' <= c && c <= 'Z'),
{
}

/// A character more, in camel case: an underscore is dropped, what follows one is
/// upper-case, and anything else stays.
pub proof fn lemma_camel_grows(s: Seq<char>, c: char, d: char)
    requires
        c != '_',
    ensures
        camel(s.push('_'), s.len() + 1) == camel(s, s.len()),
        camel(s.push('_').push(c), s.len() + 2) == camel(s, s.len()) + upper(c),
        d != '_' ==> camel(s.push(d).push(c), s.len() + 2) == camel(s.push(d), s.len() + 1).push(c),
        camel(seq![c], 1) == seq![c],
{
    reveal_with_fuel(camel, 3);
    lemma_camel_of_prefix(s, seq!['_'], s.len());
    assert(s + seq!['_'] =~= s.push('_'));
    lemma_camel_of_prefix(s, seq!['_', c], s.len());
    assert(s + seq!['_', c] =~= s.push('_').push(c));
    lemma_camel_of_prefix(s.push(d), seq![c], s.len() + 1);
    assert(s.push(d) + seq![c] =~= s.push(d).push(c));
    assert(camel(s, s.len()) + Seq::<char>::empty() =~= camel(s, s.len()));
    assert(camel(s.push('_').push(c), s.len() + 2) =~= camel(s, s.len()) + upper(c));
    assert(Seq::<char>::empty() + seq![c] =~= seq![c]);
}

} // verus!

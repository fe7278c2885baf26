//! Legacy calldata decoding: positional u128 words after the opcode.
//!
//!   - `u128`: one word
//!   - `AlkaneId`: two words (block, tx)
//!   - `String`: consume words, scanning each word's little-endian bytes until a
//!     NUL byte; bytes after the NUL in that word are discarded
//!   - `Vec<T>`: one length word, then `length` elements decoded recursively
use vstd::prelude::*;
use vstd::utf8::*;
use crate::alkane::AlkaneId;
use crate::bytes;
use crate::bytes::encode_le;
use crate::text;
use crate::text::utf8_text;

verus! {

/// Why words are no value.
#[derive(Debug, Clone, Copy, PartialEq, Eq, Structural)]
pub enum LegacyError {
    /// Missing u128 parameter.
    Word,
    /// Not enough parameters provided for AlkaneId.
    Id,
    /// Not enough parameters provided for string.
    Text,
    /// Invalid UTF-8 string.
    Utf8,
    /// Missing length parameter for Vec.
    Length,
}

/// Words that are read one after the other.
pub struct LegacyReader<'a> {
    inputs: &'a [u128],
    pos: usize,
}

impl<'a> LegacyReader<'a> {
    #[verifier::type_invariant]
    spec fn inside(self) -> bool {
        self.pos <= self.inputs@.len()
    }

    /// The words not read yet.
    pub closed spec fn rest(self) -> Seq<u128> {
        self.inputs@.skip(self.pos as int)
    }

    pub fn new(inputs: &'a [u128]) -> (r: Self)
        ensures
            r.rest() == inputs@,
    {
        let r = LegacyReader { inputs, pos: 0 };
        assert(r.rest() =~= inputs@);
        r
    }

    pub fn remaining(&self) -> (r: usize)
        ensures
            r == self.rest().len(),
    {
        proof {
            use_type_invariant(self);
        }
        self.inputs.len() - self.pos
    }

    pub fn next(&mut self) -> (r: Option<u128>)
        ensures
            match r {
                Some(w) => old(self).rest().len() > 0 && w == old(self).rest()[0] && final(self).rest() == old(
                    self,
                ).rest().drop_first(),
                None => old(self).rest().len() == 0 && final(self).rest() == old(self).rest(),
            },
    {
        proof {
            use_type_invariant(&*self);
        }
        if self.pos < self.inputs.len() {
            let value: u128 = self.inputs[self.pos];
            let ghost before = self.rest();
            self.pos = self.pos + 1;
            assert(self.rest() =~= before.drop_first());
            Some(value)
        } else {
            None
        }
    }
}

/// A value that is read from words.
pub trait LegacyDecode: Sized {
    /// What a value of the type is.
    type Meaning;

    spec fn meaning(self) -> Self::Meaning;

    /// What words are read as, and the words left.
    spec fn read(words: Seq<u128>) -> (Result<Self::Meaning, LegacyError>, Seq<u128>);

    fn decode(reader: &mut LegacyReader) -> (r: Result<Self, LegacyError>)
        ensures
            final(reader).rest() == Self::read(old(reader).rest()).1,
            match (r, Self::read(old(reader).rest()).0) {
                (Ok(v), Ok(m)) => v.meaning() == m,
                (Err(x), Err(y)) => x == y,
                _ => false,
            },
    ;
}

impl LegacyDecode for u128 {
    type Meaning = u128;

    open spec fn meaning(self) -> u128 {
        self
    }

    open spec fn read(words: Seq<u128>) -> (Result<u128, LegacyError>, Seq<u128>) {
        if words.len() == 0 {
            (Err(LegacyError::Word), words)
        } else {
            (Ok(words[0]), words.drop_first())
        }
    }

    fn decode(reader: &mut LegacyReader) -> (r: Result<Self, LegacyError>) {
        match reader.next() {
            Some(w) => Ok(w),
            None => Err(LegacyError::Word),
        }
    }
}

impl LegacyDecode for AlkaneId {
    type Meaning = AlkaneId;

    open spec fn meaning(self) -> AlkaneId {
        self
    }

    open spec fn read(words: Seq<u128>) -> (Result<AlkaneId, LegacyError>, Seq<u128>) {
        if words.len() < 2 {
            (Err(LegacyError::Id), words)
        } else {
            (Ok(AlkaneId { block: words[0], tx: words[1] }), words.skip(2))
        }
    }

    fn decode(reader: &mut LegacyReader) -> (r: Result<Self, LegacyError>) {
        let ghost words = reader.rest();
        if reader.remaining() < 2 {
            return Err(LegacyError::Id);
        }
        match (reader.next(), reader.next()) {
            (Some(block), Some(tx)) => {
                assert(words.drop_first().drop_first() =~= words.skip(2));
                Ok(AlkaneId { block, tx })
            }
            _ => Err(LegacyError::Id),
        }
    }
}

/// The bytes before the first NUL.
pub open spec fn until_nul(b: Seq<u8>) -> Seq<u8>
    decreases b.len(),
{
    if b.len() == 0 || b[0] == 0 {
        Seq::empty()
    } else {
        seq![b[0]] + until_nul(b.drop_first())
    }
}

/// The bytes of the text that words begin with.
pub open spec fn text_bytes(words: Seq<u128>) -> Seq<u8> {
    until_nul(bytes::words_bytes(words))
}

/// How many words the text takes that words begin with: those up to the one that holds
/// a NUL, or all if none does.
pub open spec fn text_words(words: Seq<u128>) -> nat {
    let n = text_bytes(words).len();
    if n < 16 * words.len() {
        n / 16 + 1
    } else {
        words.len()
    }
}

proof fn lemma_until_nul_skips(a: Seq<u8>, b: Seq<u8>)
    requires
        forall|i: int| 0 <= i < a.len() ==> a[i] != 0,
    ensures
        until_nul(a + b) == a + until_nul(b),
    decreases a.len(),
{
    if a.len() > 0 {
        assert((a + b).drop_first() =~= a.drop_first() + b);
        assert((a + b)[0] == a[0]);
        lemma_until_nul_skips(a.drop_first(), b);
        assert(a + until_nul(b) =~= seq![a[0]] + (a.drop_first() + until_nul(b)));
    } else {
        assert(a + b =~= b);
        assert(a + until_nul(b) =~= until_nul(b));
    }
}

proof fn lemma_until_nul_len(b: Seq<u8>)
    ensures
        until_nul(b).len() <= b.len(),
    decreases b.len(),
{
    if b.len() > 0 && b[0] != 0 {
        lemma_until_nul_len(b.drop_first());
    }
}

/// The bytes of words that stand one behind the other.
pub proof fn lemma_words_bytes_split(a: Seq<u128>, b: Seq<u128>)
    ensures
        bytes::words_bytes(a + b) == bytes::words_bytes(a) + bytes::words_bytes(b),
    decreases b.len(),
{
    if b.len() > 0 {
        assert((a + b).drop_last() =~= a + b.drop_last());
        lemma_words_bytes_split(a, b.drop_last());
        assert((a + b).last() == b.last());
        assert(bytes::words_bytes(a + b) =~= bytes::words_bytes(a) + bytes::words_bytes(b));
    } else {
        assert(a + b =~= a);
        assert(bytes::words_bytes(a) + bytes::words_bytes(b) =~= bytes::words_bytes(a));
    }
}

proof fn lemma_one_word(words: Seq<u128>)
    requires
        words.len() > 0,
    ensures
        bytes::words_bytes(words) == bytes::le_bytes(words[0] as int, 16) + bytes::words_bytes(words.drop_first()),
{
    let first = seq![words[0]];
    assert(words =~= first + words.drop_first());
    lemma_words_bytes_split(first, words.drop_first());
    assert(first.drop_last() =~= Seq::empty());
    assert(bytes::words_bytes(Seq::<u128>::empty()) =~= Seq::empty());
    assert(bytes::words_bytes(first) =~= bytes::le_bytes(words[0] as int, 16));
}

/// The text of the words not read yet, taken one word on.
proof fn lemma_word_of_text(words: Seq<u128>)
    requires
        words.len() > 0,
    ensures
        ({
            let w = bytes::le_bytes(words[0] as int, 16);
            let t = until_nul(w);
            if t.len() < 16 {
                text_bytes(words) == t && text_words(words) == 1
            } else {
                text_bytes(words) == w + text_bytes(words.drop_first()) && text_words(words) == 1 + text_words(
                    words.drop_first(),
                )
            }
        }),
{
    let w = bytes::le_bytes(words[0] as int, 16);
    let t = until_nul(w);
    let rest = bytes::words_bytes(words.drop_first());
    bytes::lemma_le_bytes_len(words[0] as int, 16);
    bytes::lemma_words_bytes_len(words);
    bytes::lemma_words_bytes_len(words.drop_first());
    lemma_one_word(words);
    lemma_until_nul_len(w);
    lemma_until_nul_len(rest);
    if t.len() < 16 {
        lemma_stops(w, rest);
    } else {
        lemma_whole(w);
        lemma_until_nul_skips(w, rest);
    }
}

proof fn lemma_stops(a: Seq<u8>, b: Seq<u8>)
    requires
        until_nul(a).len() < a.len(),
    ensures
        until_nul(a + b) == until_nul(a),
    decreases a.len(),
{
    assert((a + b)[0] == a[0]);
    if a[0] != 0 {
        assert((a + b).drop_first() =~= a.drop_first() + b);
        lemma_stops(a.drop_first(), b);
    }
}

proof fn lemma_whole(a: Seq<u8>)
    requires
        until_nul(a).len() >= a.len(),
    ensures
        until_nul(a) == a,
        forall|i: int| 0 <= i < a.len() ==> a[i] != 0,
    decreases a.len(),
{
    if a.len() > 0 {
        lemma_until_nul_len(a.drop_first());
        assert(a[0] != 0);
        lemma_whole(a.drop_first());
        assert(a =~= seq![a[0]] + a.drop_first());
        assert forall|i: int| 0 <= i < a.len() implies a[i] != 0 by {
            if i > 0 {
                assert(a[i] == a.drop_first()[i - 1]);
            }
        }
    } else {
        assert(until_nul(a) =~= a);
    }
}

/// The bytes before the first NUL, behind what is there.
fn push_until_nul(out: &mut Vec<u8>, b: &Vec<u8>) -> (r: bool)
    ensures
        final(out)@ == old(out)@ + until_nul(b@),
        r == (until_nul(b@).len() < b@.len()),
{
    let ghost before = out@;
    let n: usize = b.len();
    assert(b@.take(0) =~= Seq::empty());
    assert(out@ =~= before + b@.take(0));
    for i in 0..n
        invariant
            n == b@.len(),
            before == old(out)@,
            out@ == before + b@.take(i as int),
            forall|j: int| 0 <= j < i ==> b@[j] != 0,
    {
        let x: u8 = b[i];
        if x == 0 {
            proof {
                lemma_until_nul_skips(b@.take(i as int), b@.skip(i as int));
                assert(b@.take(i as int) + b@.skip(i as int) =~= b@);
                assert(until_nul(b@.skip(i as int)) =~= Seq::empty());
                assert(until_nul(b@) =~= b@.take(i as int));
            }
            return true;
        }
        out.push(x);
        assert(out@ =~= before + b@.take(i + 1));
    }
    proof {
        lemma_until_nul_skips(b@, Seq::empty());
        assert(b@ + Seq::<u8>::empty() =~= b@);
        assert(b@.take(n as int) =~= b@);
    }
    false
}

impl LegacyDecode for String {
    type Meaning = Seq<char>;

    open spec fn meaning(self) -> Seq<char> {
        self@
    }

    open spec fn read(words: Seq<u128>) -> (Result<Seq<char>, LegacyError>, Seq<u128>) {
        if words.len() == 0 {
            (Err(LegacyError::Text), words)
        } else {
            (
                match text::utf8_chars(text_bytes(words)) {
                    Some(s) => Ok(s),
                    None => Err(LegacyError::Utf8),
                },
                words.skip(text_words(words) as int),
            )
        }
    }

    fn decode(reader: &mut LegacyReader) -> (r: Result<Self, LegacyError>) {
        let ghost words = reader.rest();
        if reader.remaining() == 0 {
            return Err(LegacyError::Text);
        }
        let mut string_bytes: Vec<u8> = Vec::new();
        let mut found_null = false;
        assert(string_bytes@ + text_bytes(words) =~= text_bytes(words));
        while !found_null
            invariant
                words.len() > 0,
                words == old(reader).rest(),
                !found_null ==> {
                    &&& text_bytes(words) == string_bytes@ + text_bytes(reader.rest())
                    &&& text_words(words) + reader.rest().len() == words.len() + text_words(reader.rest())
                    &&& reader.rest().len() <= words.len()
                    &&& reader.rest() == words.skip(words.len() - reader.rest().len())
                },
                found_null ==> {
                    &&& text_bytes(words) == string_bytes@
                    &&& reader.rest() == words.skip(text_words(words) as int)
                },
            ensures
                text_bytes(words) == string_bytes@,
                reader.rest() == words.skip(text_words(words) as int),
            decreases (if found_null { 0int } else { 1int }), reader.rest().len(),
        {
            let ghost rest = reader.rest();
            match reader.next() {
                None => {
                    assert(bytes::words_bytes(rest) =~= Seq::empty());
                    assert(text_bytes(rest) =~= Seq::empty());
                    assert(string_bytes@ + text_bytes(rest) =~= string_bytes@);
                    break;
                }
                Some(word) => {
                    proof {
                        lemma_word_of_text(rest);
                        bytes::lemma_le_bytes_len(word as int, 16);
                        bytes::lemma_pow256_16();
                    }
                    let le = encode_le(word, 16);
                    let ghost so_far = string_bytes@;
                    found_null = push_until_nul(&mut string_bytes, &le);
                    proof {
                        assert(rest.drop_first() =~= words.skip(words.len() - rest.len() + 1));
                        if !found_null {
                            lemma_until_nul_len(le@);
                            lemma_whole(le@);
                            assert(so_far + (le@ + text_bytes(rest.drop_first())) =~= so_far + le@ + text_bytes(
                                rest.drop_first(),
                            ));
                        }
                    }
                }
            }
        }
        match utf8_text(string_bytes) {
            Some(s) => Ok(s),
            None => Err(LegacyError::Utf8),
        }
    }
}

/// The first `n` values that words are read as, and the words left.
pub open spec fn read_items<T: LegacyDecode>(words: Seq<u128>, n: nat) -> (Result<Seq<T::Meaning>, LegacyError>, Seq<u128>)
    decreases n,
{
    if n == 0 {
        (Ok(Seq::empty()), words)
    } else {
        match read_items::<T>(words, (n - 1) as nat) {
            (Err(e), rest) => (Err(e), rest),
            (Ok(items), rest) => match T::read(rest) {
                (Err(e), left) => (Err(e), left),
                (Ok(m), left) => (Ok(items.push(m)), left),
            },
        }
    }
}

/// What a list of values is.
pub open spec fn meanings<T: LegacyDecode>(items: Seq<T>) -> Seq<T::Meaning> {
    Seq::new(items.len(), |i: int| items[i].meaning())
}

proof fn lemma_items_stopped<T: LegacyDecode>(words: Seq<u128>, k: nat, n: nat)
    requires
        k <= n,
        read_items::<T>(words, k).0 is Err,
    ensures
        read_items::<T>(words, n) == read_items::<T>(words, k),
    decreases n,
{
    if k < n {
        lemma_items_stopped::<T>(words, k, (n - 1) as nat);
    }
}

impl<T: LegacyDecode> LegacyDecode for Vec<T> {
    type Meaning = Seq<T::Meaning>;

    open spec fn meaning(self) -> Seq<T::Meaning> {
        meanings(self@)
    }

    open spec fn read(words: Seq<u128>) -> (Result<Seq<T::Meaning>, LegacyError>, Seq<u128>) {
        if words.len() == 0 {
            (Err(LegacyError::Length), words)
        } else {
            read_items::<T>(words.drop_first(), (words[0] as usize) as nat)
        }
    }

    fn decode(reader: &mut LegacyReader) -> (r: Result<Self, LegacyError>) {
        let length: usize = match reader.next() {
            None => {
                return Err(LegacyError::Length);
            }
            Some(w) => #[verifier::truncate] (w as usize),
        };
        let ghost words = reader.rest();
        let mut items: Vec<T> = Vec::new();
        assert(meanings(items@) =~= Seq::empty());
        for i in 0..length
            invariant
                old(reader).rest().len() > 0,
                words == old(reader).rest().drop_first(),
                length == old(reader).rest()[0] as usize,
                read_items::<T>(words, i as nat) == (
                    Ok::<Seq<T::Meaning>, LegacyError>(meanings(items@)),
                    reader.rest(),
                ),
        {
            match T::decode(reader) {
                Err(e) => {
                    proof {
                        lemma_items_stopped::<T>(words, (i + 1) as nat, length as nat);
                    }
                    return Err(e);
                }
                Ok(v) => {
                    let ghost before = meanings(items@);
                    items.push(v);
                    assert(meanings(items@) =~= before.push(v.meaning()));
                }
            }
        }
        Ok(items)
    }
}

/* ─────────────── laws ─────────────── */

/// Words behind their number are read back as a list of words, and no more is read.
pub proof fn lemma_list_of_words(xs: Seq<u128>, rest: Seq<u128>)
    requires
        xs.len() <= usize::MAX,
    ensures
        <Vec<u128> as LegacyDecode>::read(seq![xs.len() as u128] + xs + rest) == (Ok::<Seq<u128>, LegacyError>(xs), rest),
{
    let words = seq![xs.len() as u128] + xs + rest;
    let n = xs.len();
    assert(words.drop_first() =~= xs + rest);
    assert(words[0] as usize == n);
    lemma_items_of_words(xs, rest, n);
    assert(xs.take(n as int) =~= xs);
    assert((xs + rest).skip(n as int) =~= rest);
}

proof fn lemma_items_of_words(xs: Seq<u128>, rest: Seq<u128>, n: nat)
    requires
        n <= xs.len(),
    ensures
        read_items::<u128>(xs + rest, n) == (Ok::<Seq<u128>, LegacyError>(xs.take(n as int)), (xs + rest).skip(n as int)),
    decreases n,
{
    if n > 0 {
        lemma_items_of_words(xs, rest, (n - 1) as nat);
        let left = (xs + rest).skip(n - 1);
        assert(left[0] == xs[n - 1]);
        assert(left.drop_first() =~= (xs + rest).skip(n as int));
        assert(xs.take(n as int) =~= xs.take(n - 1).push(xs[n - 1]));
    } else {
        assert(xs.take(0) =~= Seq::empty());
        assert((xs + rest).skip(0) =~= xs + rest);
    }
}

/// A text without a NUL, written behind one another in the bytes of words and ended by
/// a NUL, is read back; the words behind the one that holds the NUL are left.
pub proof fn lemma_text_of_words(s: Seq<char>, words: Seq<u128>, rest: Seq<u128>)
    requires
        forall|i: int| 0 <= i < encode_utf8(s).len() ==> encode_utf8(s)[i] != 0,
        words.len() == encode_utf8(s).len() / 16 + 1,
        bytes::words_bytes(words).take((encode_utf8(s).len() + 1) as int) == encode_utf8(s).push(0),
    ensures
        <String as LegacyDecode>::read(words + rest) == (Ok::<Seq<char>, LegacyError>(s), rest),
{
    let b = encode_utf8(s);
    let all = words + rest;
    let whole = bytes::words_bytes(words);
    bytes::lemma_words_bytes_len(words);
    bytes::lemma_words_bytes_len(all);
    lemma_words_bytes_split(words, rest);
    let behind = bytes::words_bytes(all).skip(b.len() as int);
    assert(whole.take((b.len() + 1) as int)[b.len() as int] == 0);
    assert(bytes::words_bytes(all).take(b.len() as int) =~= whole.take((b.len() + 1) as int).take(b.len() as int));
    assert(b.push(0).take(b.len() as int) =~= b);
    assert(bytes::words_bytes(all) =~= b + behind);
    assert(behind[0] == 0);
    assert(until_nul(behind) =~= Seq::empty());
    lemma_until_nul_skips(b, behind);
    assert(b + Seq::<u8>::empty() =~= b);
    assert(text_bytes(all) == b);
    assert(text_words(all) == words.len());
    assert(all.skip(words.len() as int) =~= rest);
    encode_utf8_valid_utf8(s);
    encode_utf8_decode_utf8(s);
}

/// A text takes at least one word, and no more than there are.
pub proof fn lemma_text_moves_on(words: Seq<u128>)
    requires
        words.len() > 0,
    ensures
        0 < text_words(words) <= words.len(),
{
    lemma_until_nul_len(bytes::words_bytes(words));
    bytes::lemma_words_bytes_len(words);
}

/// A word is read as itself, and two words as an id: the block, then the transaction. What
/// stands behind is left; too few words are an error.
pub proof fn lemma_words_read(a: u128, b: u128, rest: Seq<u128>)
    ensures
        <u128 as LegacyDecode>::read(seq![a] + rest) == (Ok::<u128, LegacyError>(a), rest),
        <u128 as LegacyDecode>::read(seq![]) == (Err::<u128, LegacyError>(LegacyError::Word), Seq::<u128>::empty()),
        <AlkaneId as LegacyDecode>::read(seq![a, b] + rest) == (Ok::<AlkaneId, LegacyError>(AlkaneId { block: a, tx: b }), rest),
        <AlkaneId as LegacyDecode>::read(seq![a]).0 == Err::<AlkaneId, LegacyError>(LegacyError::Id),
        <AlkaneId as LegacyDecode>::read(seq![]).0 == Err::<AlkaneId, LegacyError>(LegacyError::Id),
        <String as LegacyDecode>::read(seq![]).0 == Err::<Seq<char>, LegacyError>(LegacyError::Text),
        <Vec<u128> as LegacyDecode>::read(seq![]).0 == Err::<Seq<u128>, LegacyError>(LegacyError::Length),
{
    assert((seq![a] + rest).drop_first() =~= rest);
    assert((seq![a, b] + rest).skip(2) =~= rest);
}

} // verus!

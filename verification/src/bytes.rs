//! Byte strings: little-endian numbers, searching, and a map keyed by byte strings.
use vstd::prelude::*;

verus! {

/// The little-endian encoding of `n` in `width` bytes (the low bytes, if it does
/// not fit).
pub open spec fn le_bytes(n: int, width: nat) -> Seq<u8>
    decreases width,
{
    if width == 0 {
        Seq::empty()
    } else {
        seq![(n % 256) as u8] + le_bytes(n / 256, (width - 1) as nat)
    }
}

/// The number that a little-endian byte string denotes.
pub open spec fn le_num(b: Seq<u8>) -> nat
    decreases b.len(),
{
    if b.len() == 0 {
        0
    } else {
        b[0] as nat + 256 * le_num(b.drop_first())
    }
}

/// The number in at most the first 16 bytes, little-endian.
pub open spec fn low_num(b: Seq<u8>) -> u128 {
    le_num(if b.len() > 16 { b.take(16) } else { b }) as u128
}

/// The words, each in 16 little-endian bytes.
pub open spec fn words_bytes(words: Seq<u128>) -> Seq<u8>
    decreases words.len(),
{
    if words.len() == 0 {
        Seq::empty()
    } else {
        words_bytes(words.drop_last()) + le_bytes(words.last() as int, 16)
    }
}

pub open spec fn pow256(k: nat) -> nat
    decreases k,
{
    if k == 0 {
        1
    } else {
        256 * pow256((k - 1) as nat)
    }
}

pub proof fn lemma_le_bytes_len(n: int, width: nat)
    ensures
        le_bytes(n, width).len() == width,
    decreases width,
{
    if width > 0 {
        lemma_le_bytes_len(n / 256, (width - 1) as nat);
    }
}

pub proof fn lemma_le_num_bound(b: Seq<u8>)
    ensures
        le_num(b) < pow256(b.len()),
    decreases b.len(),
{
    if b.len() > 0 {
        lemma_le_num_bound(b.drop_first());
    }
}

pub proof fn lemma_pow256_16()
    ensures
        pow256(4) == 0x1_0000_0000,
        pow256(8) == 0x1_0000_0000_0000_0000,
        pow256(16) == 0x1_0000_0000_0000_0000_0000_0000_0000_0000nat,
{
    reveal_with_fuel(pow256, 17);
    assert(pow256(4) == 0x1_0000_0000);
    assert(pow256(8) == 0x1_0000_0000_0000_0000);
    assert(pow256(12) == 0x1_0000_0000_0000_0000_0000_0000nat);
    assert(pow256(16) == 0x1_0000_0000_0000_0000_0000_0000_0000_0000nat);
}

pub proof fn lemma_pow256_mono(a: nat, b: nat)
    requires
        a <= b,
    ensures
        1 <= pow256(a) <= pow256(b),
    decreases b,
{
    if b > 0 {
        if a < b {
            lemma_pow256_mono(a, (b - 1) as nat);
        } else {
            lemma_pow256_mono((a - 1) as nat, (b - 1) as nat);
        }
    }
}

/// A number decoded from its little-endian encoding is the number, if the
/// encoding is wide enough.
pub proof fn lemma_le_round_trip(n: int, width: nat)
    requires
        0 <= n < pow256(width),
    ensures
        le_num(le_bytes(n, width)) == n,
    decreases width,
{
    if width > 0 {
        assert(n / 256 < pow256((width - 1) as nat));
        lemma_le_round_trip(n / 256, (width - 1) as nat);
        assert(le_bytes(n, width).drop_first() =~= le_bytes(n / 256, (width - 1) as nat));
    }
}

/// A byte string re-encoded from the number it denotes is the byte string.
pub proof fn lemma_le_num_round_trip(b: Seq<u8>)
    ensures
        le_bytes(le_num(b) as int, b.len()) == b,
    decreases b.len(),
{
    if b.len() > 0 {
        lemma_le_num_round_trip(b.drop_first());
        let n = le_num(b) as int;
        assert(n / 256 == le_num(b.drop_first()));
        assert(n % 256 == b[0]);
        assert(le_bytes(n, b.len()) =~= b);
    } else {
        assert(le_bytes(0, 0) =~= b);
    }
}

pub proof fn lemma_le_bytes_take(n: int, width: nat, k: nat)
    requires
        k <= width,
    ensures
        le_bytes(n, width).take(k as int) == le_bytes(n, k),
    decreases k,
{
    lemma_le_bytes_len(n, width);
    lemma_le_bytes_len(n, k);
    if k > 0 {
        lemma_le_bytes_take(n / 256, (width - 1) as nat, (k - 1) as nat);
        assert(le_bytes(n, width).take(k as int) =~= seq![(n % 256) as u8] + le_bytes(n / 256, (width - 1) as nat).take(k - 1));
    } else {
        assert(le_bytes(n, width).take(0) =~= Seq::<u8>::empty());
    }
}

proof fn lemma_le_bytes_push(n: int, k: nat)
    requires
        n >= 0,
    ensures
        le_bytes(n, k + 1) == le_bytes(n, k).push(((n / (pow256(k) as int)) % 256) as u8),
    decreases k,
{
    if k == 0 {
        reveal_with_fuel(le_bytes, 2);
        assert(n / 1 == n);
        assert(le_bytes(n, 1) =~= le_bytes(n, 0).push((n % 256) as u8));
    } else {
        lemma_le_bytes_push(n / 256, (k - 1) as nat);
        let p = pow256((k - 1) as nat) as int;
        lemma_pow256_mono(0, (k - 1) as nat);
        assert((n / 256) / p == n / (256 * p)) by {
            vstd::arithmetic::div_mod::lemma_div_denominator(n, 256, p);
        }
        assert(le_bytes(n, k + 1) =~= le_bytes(n, k).push(((n / (256 * p)) % 256) as u8));
    }
}

/// Byte `k` of an encoding is the `k`th digit of the number to the base of 256.
pub proof fn lemma_le_bytes_at(n: int, width: nat, k: nat)
    requires
        n >= 0,
        k < width,
    ensures
        le_bytes(n, width).len() == width,
        le_bytes(n, width)[k as int] as int == (n / (pow256(k) as int)) % 256,
{
    lemma_le_bytes_len(n, width);
    lemma_le_bytes_len(n, k);
    lemma_le_bytes_take(n, width, k + 1);
    lemma_le_bytes_push(n, k);
    assert(le_bytes(n, width)[k as int] == le_bytes(n, width).take((k + 1) as int)[k as int]);
}

/// An encoding that is not wide enough keeps the number modulo 256^width.
pub proof fn lemma_le_num_low(n: int, width: nat)
    requires
        n >= 0,
    ensures
        le_num(le_bytes(n, width)) as int == n % (pow256(width) as int),
    decreases width,
{
    if width == 0 {
        assert(n % 1 == 0);
    } else {
        lemma_le_num_low(n / 256, (width - 1) as nat);
        assert(le_bytes(n, width).drop_first() =~= le_bytes(n / 256, (width - 1) as nat));
        let p = pow256((width - 1) as nat) as int;
        lemma_pow256_mono(0, (width - 1) as nat);
        vstd::arithmetic::div_mod::lemma_mod_breakdown(n, 256, p);
        assert(pow256(width) == 256 * p);
    }
}

/// Byte `k` of flattened words is a digit of the word that it belongs to.
pub proof fn lemma_words_bytes_byte(words: Seq<u128>, k: int)
    requires
        0 <= k < 16 * words.len(),
    ensures
        words_bytes(words).len() == 16 * words.len(),
        words_bytes(words)[k] as int == ((words[k / 16] as int) / (pow256((k % 16) as nat) as int)) % 256,
{
    lemma_words_bytes_len(words);
    let i = k / 16;
    let part = words_bytes(words).subrange(16 * i, 16 * i + 16);
    lemma_words_bytes_at(words, i);
    lemma_le_num_round_trip(part);
    lemma_le_bytes_at(words[i] as int, 16, (k % 16) as nat);
    assert(words_bytes(words)[k] == part[k % 16]);
}

/// The low `width` bytes of `n`, little-endian.
pub fn encode_le(n: u128, width: usize) -> (r: Vec<u8>)
    ensures
        r@ == le_bytes(n as int, width as nat),
{
    let mut out: Vec<u8> = Vec::new();
    let mut rest: u128 = n;
    assert(n as int / 1 == n as int);
    for i in 0..width
        invariant
            out@ == le_bytes(n as int, i as nat),
            rest as int == n as int / (pow256(i as nat) as int),
    {
        proof {
            lemma_le_bytes_push(n as int, i as nat);
            lemma_pow256_mono(0, i as nat);
            let p = pow256(i as nat) as int;
            vstd::arithmetic::div_mod::lemma_div_denominator(n as int, p, 256);
            assert(p * 256 == 256 * p);
        }
        out.push((rest % 256) as u8);
        rest = rest / 256;
    }
    out
}

/// The number in at most the first 16 bytes of `b`, little-endian.
pub fn decode_le(b: &[u8]) -> (r: u128)
    ensures
        r == low_num(b@),
        b@.len() <= 16 ==> r == le_num(b@),
{
    let take: usize = if b.len() > 16 { 16 } else { b.len() };
    let ghost s = if b@.len() > 16 { b@.take(16) } else { b@ };
    assert(s =~= b@.take(take as int));
    let mut n: u128 = 0;
    let mut i: usize = take;
    proof {
        lemma_pow256_16();
        assert(s.skip(take as int) =~= Seq::<u8>::empty());
    }
    while i > 0
        invariant
            i <= take <= 16,
            take <= b@.len(),
            s == b@.take(take as int),
            n as nat == le_num(s.skip(i as int)),
            pow256(16) == 0x1_0000_0000_0000_0000_0000_0000_0000_0000nat,
        decreases i,
    {
        i = i - 1;
        proof {
            let t = s.skip(i as int);
            assert(t.drop_first() =~= s.skip(i + 1));
            lemma_le_num_bound(t);
            lemma_pow256_mono(t.len(), 16);
        }
        n = 256 * n + b[i] as u128;
    }
    assert(s.skip(0) =~= s);
    n
}

/// The words of `words`, each in 16 little-endian bytes.
pub fn flatten_words(words: &[u128]) -> (r: Vec<u8>)
    ensures
        r@ == words_bytes(words@),
{
    let mut out: Vec<u8> = Vec::new();
    for i in 0..words.len()
        invariant
            out@ == words_bytes(words@.take(i as int)),
    {
        let mut word = encode_le(words[i], 16);
        assert(words@.take(i + 1).drop_last() =~= words@.take(i as int));
        out.append(&mut word);
    }
    assert(words@.take(words@.len() as int) =~= words@);
    out
}

pub proof fn lemma_words_bytes_len(words: Seq<u128>)
    ensures
        words_bytes(words).len() == 16 * words.len(),
    decreases words.len(),
{
    if words.len() > 0 {
        lemma_words_bytes_len(words.drop_last());
        lemma_le_bytes_len(words.last() as int, 16);
    }
}

/// Word `i` is read back from its place in the flattened words.
pub proof fn lemma_words_bytes_at(words: Seq<u128>, i: int)
    requires
        0 <= i < words.len(),
    ensures
        le_num(words_bytes(words).subrange(16 * i, 16 * i + 16)) == words[i],
    decreases words.len(),
{
    lemma_words_bytes_len(words);
    lemma_words_bytes_len(words.drop_last());
    if i == words.len() - 1 {
        lemma_pow256_16();
        lemma_le_bytes_len(words.last() as int, 16);
        lemma_le_round_trip(words.last() as int, 16);
        assert(words_bytes(words).subrange(16 * i, 16 * i + 16) =~= le_bytes(words.last() as int, 16));
    } else {
        lemma_words_bytes_at(words.drop_last(), i);
        assert(words_bytes(words).subrange(16 * i, 16 * i + 16) =~= words_bytes(words.drop_last()).subrange(16 * i, 16 * i + 16));
    }
}

/// A copy of `b`.
pub fn copy_bytes(b: &[u8]) -> (r: Vec<u8>)
    ensures
        r@ == b@,
{
    vstd::slice::slice_to_vec(b)
}

/// Bytes `from..to` of `b`.
pub fn cut(b: &[u8], from: usize, to: usize) -> (r: Vec<u8>)
    requires
        from <= to <= b@.len(),
    ensures
        r@ == b@.subrange(from as int, to as int),
{
    vstd::slice::slice_to_vec(vstd::slice::slice_subrange(b, from, to))
}

/// Byte-string equality.
pub fn same_bytes(a: &[u8], b: &[u8]) -> (r: bool)
    ensures
        r == (a@ == b@),
{
    if a.len() != b.len() {
        return false;
    }
    for i in 0..a.len()
        invariant
            a@.len() == b@.len(),
            a@.take(i as int) == b@.take(i as int),
    {
        if a[i] != b[i] {
            assert(a@[i as int] != b@[i as int]);
            return false;
        }
        assert(a@.take(i + 1) =~= a@.take(i as int).push(a@[i as int]));
        assert(b@.take(i + 1) =~= b@.take(i as int).push(b@[i as int]));
    }
    assert(a@.take(a@.len() as int) =~= a@);
    assert(b@.take(b@.len() as int) =~= b@);
    true
}

/// Whether `needle` stands in `hay` at `at`.
pub open spec fn occurs_at(hay: Seq<u8>, needle: Seq<u8>, at: int) -> bool {
    0 <= at && at + needle.len() <= hay.len() && hay.subrange(at, at + needle.len()) == needle
}

/// The first place where `needle` stands in `hay`.
pub open spec fn first_occurrence(hay: Seq<u8>, needle: Seq<u8>, r: Option<int>) -> bool {
    match r {
        Some(at) => occurs_at(hay, needle, at) && forall|j: int| 0 <= j < at ==> !occurs_at(hay, needle, j),
        None => forall|j: int| !occurs_at(hay, needle, j),
    }
}

/// The first place where `needle` stands in `hay`.
pub open spec fn find_first(hay: Seq<u8>, needle: Seq<u8>) -> Option<int> {
    choose|r: Option<int>| first_occurrence(hay, needle, r)
}

pub proof fn lemma_find_first(hay: Seq<u8>, needle: Seq<u8>, r: Option<int>)
    requires
        first_occurrence(hay, needle, r),
    ensures
        find_first(hay, needle) == r,
{
    let q = find_first(hay, needle);
    assert(first_occurrence(hay, needle, q));
    match (q, r) {
        (Some(a), Some(b)) => {
            assert(occurs_at(hay, needle, a) && occurs_at(hay, needle, b));
        }
        (Some(a), None) => {
            assert(occurs_at(hay, needle, a));
        }
        (None, Some(b)) => {
            assert(occurs_at(hay, needle, b));
        }
        (None, None) => {}
    }
}

proof fn lemma_first_from(hay: Seq<u8>, needle: Seq<u8>, from: int)
    requires
        0 <= from,
        forall|j: int| 0 <= j < from ==> !occurs_at(hay, needle, j),
    ensures
        exists|r: Option<int>| first_occurrence(hay, needle, r),
    decreases hay.len() - from,
{
    if occurs_at(hay, needle, from) {
        assert(first_occurrence(hay, needle, Some(from)));
    } else if from < hay.len() {
        lemma_first_from(hay, needle, from + 1);
    } else {
        assert forall|j: int| !occurs_at(hay, needle, j) by {
            if j > from {
                assert(j + needle.len() > hay.len());
            }
        }
        assert(first_occurrence(hay, needle, None));
    }
}

/// What is found stands there.
pub proof fn lemma_find_first_found(hay: Seq<u8>, needle: Seq<u8>)
    ensures
        first_occurrence(hay, needle, find_first(hay, needle)),
{
    lemma_first_from(hay, needle, 0);
}

/// A place as a mathematical integer.
pub open spec fn place(r: Option<usize>) -> Option<int> {
    match r {
        Some(i) => Some(i as int),
        None => None,
    }
}

/// The first occurrence of `needle` in `hay`; none of an empty needle.
pub fn find_subslice(hay: &[u8], needle: &[u8]) -> (r: Option<usize>)
    ensures
        needle@.len() == 0 ==> r is None,
        needle@.len() > 0 ==> first_occurrence(hay@, needle@, place(r)) && place(r) == find_first(hay@, needle@),
{
    let r = search(hay, needle);
    proof {
        if needle@.len() > 0 {
            lemma_find_first(hay@, needle@, place(r));
        }
    }
    r
}

fn search(hay: &[u8], needle: &[u8]) -> (r: Option<usize>)
    ensures
        needle@.len() == 0 ==> r is None,
        needle@.len() > 0 ==> first_occurrence(hay@, needle@, place(r)),
{
    if needle.len() == 0 || needle.len() > hay.len() {
        return None;
    }
    let width: usize = needle.len();
    let last: usize = hay.len() - width;
    let mut at: usize = 0;
    loop
        invariant
            at <= last,
            width == needle@.len(),
            last + width == hay@.len(),
            last + width <= usize::MAX,
            width > 0,
            forall|j: int| 0 <= j < at ==> !occurs_at(hay@, needle@, j),
        decreases last - at,
    {
        let window = vstd::slice::slice_subrange(hay, at, at + width);
        if same_bytes(window, needle) {
            assert(occurs_at(hay@, needle@, at as int));
            return Some(at);
        }
        assert(!occurs_at(hay@, needle@, at as int));
        if at == last {
            return None;
        }
        at = at + 1;
    }
}

/// Whether `b` ends with `tail`.
pub open spec fn ends_with(b: Seq<u8>, tail: Seq<u8>) -> bool {
    b.len() >= tail.len() && b.subrange(b.len() - tail.len(), b.len() as int) == tail
}

pub fn has_suffix(b: &[u8], tail: &[u8]) -> (r: bool)
    ensures
        r == ends_with(b@, tail@),
{
    if b.len() < tail.len() {
        return false;
    }
    same_bytes(vstd::slice::slice_subrange(b, b.len() - tail.len(), b.len()), tail)
}

/// A map from byte strings: a list of entries, of which the first with a key counts.
pub struct ByteMap<V> {
    entries: Vec<(Vec<u8>, V)>,
}

/// Whether the first place of `k` is `i`.
pub open spec fn first_at(keys: Seq<Seq<u8>>, k: Seq<u8>, i: int) -> bool {
    0 <= i < keys.len() && keys[i] == k && forall|j: int| 0 <= j < i ==> keys[j] != k
}

proof fn lemma_first_exists(keys: Seq<Seq<u8>>, k: Seq<u8>)
    requires
        keys.contains(k),
    ensures
        exists|i: int| first_at(keys, k, i),
    decreases keys.len(),
{
    if keys.drop_last().contains(k) {
        lemma_first_exists(keys.drop_last(), k);
        let i = choose|i: int| first_at(keys.drop_last(), k, i);
        assert(first_at(keys, k, i)) by {
            assert forall|j: int| 0 <= j < i implies keys[j] != k by {
                assert(keys.drop_last()[j] == keys[j]);
            }
        }
    } else {
        let i = choose|i: int| 0 <= i < keys.len() && keys[i] == k;
        assert(first_at(keys, k, i)) by {
            assert forall|j: int| 0 <= j < i implies keys[j] != k by {
                assert(keys.drop_last()[j] == keys[j]);
            }
        }
    }
}

impl<V> ByteMap<V> {
    pub closed spec fn keys(self) -> Seq<Seq<u8>> {
        Seq::new(self.entries@.len(), |i: int| self.entries@[i].0@)
    }

    /// What the map holds.
    pub closed spec fn map(self) -> Map<Seq<u8>, V> {
        Map::new(
            |k: Seq<u8>| self.keys().contains(k),
            |k: Seq<u8>| self.entries@[choose|i: int| first_at(self.keys(), k, i)].1,
        )
    }

    proof fn lemma_entry(self, k: Seq<u8>, i: int)
        requires
            first_at(self.keys(), k, i),
        ensures
            self.map().dom().contains(k),
            self.map()[k] == self.entries@[i].1,
    {
        assert(self.keys().contains(k));
        let j = choose|j: int| first_at(self.keys(), k, j);
        assert(first_at(self.keys(), k, j));
        assert(i == j) by {
            assert(self.keys()[i] == k && self.keys()[j] == k);
        }
    }

    pub fn new() -> (r: ByteMap<V>)
        ensures
            r.map() == Map::<Seq<u8>, V>::empty(),
    {
        let r = ByteMap { entries: Vec::new() };
        assert(r.map() =~= Map::<Seq<u8>, V>::empty());
        r
    }

    fn position(&self, key: &[u8]) -> (r: Option<usize>)
        ensures
            match r {
                Some(i) => first_at(self.keys(), key@, i as int) && self.map().dom().contains(key@)
                    && self.map()[key@] == self.entries@[i as int].1,
                None => !self.map().dom().contains(key@) && !self.keys().contains(key@),
            },
    {
        for i in 0..self.entries.len()
            invariant
                forall|j: int| 0 <= j < i ==> self.keys()[j] != key@,
        {
            if same_bytes(self.entries[i].0.as_slice(), key) {
                proof { self.lemma_entry(key@, i as int); }
                return Some(i);
            }
        }
        None
    }

    /// The value at `key`.
    pub fn get(&self, key: &[u8]) -> (r: Option<&V>)
        ensures
            match r {
                Some(v) => self.map().dom().contains(key@) && *v == self.map()[key@],
                None => !self.map().dom().contains(key@),
            },
    {
        match self.position(key) {
            Some(i) => Some(&self.entries[i].1),
            None => None,
        }
    }

    /// Puts `value` at `key`, in place of what stood there.
    pub fn insert(&mut self, key: Vec<u8>, value: V)
        ensures
            final(self).map() == old(self).map().insert(key@, value),
    {
        let ghost before = *self;
        match self.position(key.as_slice()) {
            Some(i) => {
                self.entries.set(i, (key, value));
                proof {
                    let after = *self;
                    assert(after.keys() =~= before.keys());
                    assert forall|k: Seq<u8>| after.map().dom().contains(k) implies #[trigger] after.map()[k] == before.map().insert(key@, value)[k] by {
                        lemma_first_exists(after.keys(), k);
                        let j = choose|j: int| first_at(after.keys(), k, j);
                        after.lemma_entry(k, j);
                        before.lemma_entry(k, j);
                        if k == key@ {
                            after.lemma_entry(k, i as int);
                        } else {
                            assert(j != i);
                        }
                    }
                    assert(after.map() =~= before.map().insert(key@, value));
                }
            }
            None => {
                self.entries.push((key, value));
                proof {
                    let after = *self;
                    let n = before.entries@.len() as int;
                    assert(after.keys() =~= before.keys().push(key@));
                    assert forall|k: Seq<u8>| after.map().dom().contains(k) == before.map().insert(key@, value).dom().contains(k) by {
                        if before.keys().contains(k) {
                            let j = choose|j: int| 0 <= j < before.keys().len() && before.keys()[j] == k;
                            assert(after.keys()[j] == k);
                        }
                        if k == key@ {
                            assert(after.keys()[n] == k);
                        }
                        if after.keys().contains(k) && k != key@ {
                            let j = choose|j: int| 0 <= j < after.keys().len() && after.keys()[j] == k;
                            assert(before.keys()[j] == k);
                        }
                    }
                    assert forall|k: Seq<u8>| after.map().dom().contains(k) implies #[trigger] after.map()[k] == before.map().insert(key@, value)[k] by {
                        if k == key@ {
                            assert(first_at(after.keys(), k, n)) by {
                                assert forall|j: int| 0 <= j < n implies after.keys()[j] != k by {
                                    assert(before.keys()[j] == after.keys()[j]);
                                }
                            }
                            after.lemma_entry(k, n);
                        } else {
                            assert(before.keys().contains(k));
                            lemma_first_exists(before.keys(), k);
                            let j = choose|j: int| first_at(before.keys(), k, j);
                            assert(first_at(after.keys(), k, j)) by {
                                assert forall|h: int| 0 <= h < j implies after.keys()[h] != k by {
                                    assert(before.keys()[h] == after.keys()[h]);
                                }
                            }
                            before.lemma_entry(k, j);
                            after.lemma_entry(k, j);
                        }
                    }
                    assert(after.map() =~= before.map().insert(key@, value));
                }
            }
        }
    }
}

/// The byte-string values of a map.
pub open spec fn bytes_map(m: Map<Seq<u8>, Vec<u8>>) -> Map<Seq<u8>, Seq<u8>> {
    m.map_values(|v: Vec<u8>| v@)
}

/// A copy of a map of byte strings.
pub fn copy_map(m: &ByteMap<Vec<u8>>) -> (r: ByteMap<Vec<u8>>)
    ensures
        bytes_map(r.map()) == bytes_map(m.map()),
{
    let mut out: ByteMap<Vec<u8>> = ByteMap { entries: Vec::new() };
    for i in 0..m.entries.len()
        invariant
            out.entries@.len() == i,
            forall|j: int| 0 <= j < i ==> (#[trigger] out.entries@[j]).0@ == m.entries@[j].0@ && out.entries@[j].1@ == m.entries@[j].1@,
    {
        let key = copy_bytes(m.entries[i].0.as_slice());
        let value = copy_bytes(m.entries[i].1.as_slice());
        out.entries.push((key, value));
    }
    proof {
        assert(out.keys() =~= m.keys());
        assert forall|k: Seq<u8>| out.map().dom().contains(k) implies #[trigger] out.map()[k]@ == m.map()[k]@ by {
            lemma_first_exists(m.keys(), k);
            let j = choose|j: int| first_at(m.keys(), k, j);
            out.lemma_entry(k, j);
            m.lemma_entry(k, j);
        }
        assert(bytes_map(out.map()) =~= bytes_map(m.map()));
    }
    out
}

/// A copy of a map of plain values.
pub fn copy_plain<V: Copy>(m: &ByteMap<V>) -> (r: ByteMap<V>)
    ensures
        r.map() == m.map(),
{
    let mut out: ByteMap<V> = ByteMap { entries: Vec::new() };
    for i in 0..m.entries.len()
        invariant
            out.entries@.len() == i,
            forall|j: int| 0 <= j < i ==> (#[trigger] out.entries@[j]).0@ == m.entries@[j].0@ && out.entries@[j].1 == m.entries@[j].1,
    {
        let key = copy_bytes(m.entries[i].0.as_slice());
        let value: V = m.entries[i].1;
        out.entries.push((key, value));
    }
    proof {
        assert(out.keys() =~= m.keys());
        assert forall|k: Seq<u8>| out.map().dom().contains(k) implies #[trigger] out.map()[k] == m.map()[k] by {
            lemma_first_exists(m.keys(), k);
            let j = choose|j: int| first_at(m.keys(), k, j);
            out.lemma_entry(k, j);
            m.lemma_entry(k, j);
        }
        assert(out.map() =~= m.map());
    }
    out
}

/// The value at `key`, nothing where there is none.
pub open spec fn value_at(m: Map<Seq<u8>, Seq<u8>>, key: Seq<u8>) -> Seq<u8> {
    if m.dom().contains(key) {
        m[key]
    } else {
        Seq::empty()
    }
}

/// A copy of the value at `key`, nothing where there is none.
pub fn stored_value(m: &ByteMap<Vec<u8>>, key: &[u8]) -> (r: Vec<u8>)
    ensures
        r@ == value_at(bytes_map(m.map()), key@),
{
    match m.get(key) {
        Some(v) => copy_bytes(v.as_slice()),
        None => Vec::new(),
    }
}

} // verus!

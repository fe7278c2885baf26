//! List-read plan synthesis.
//!
//! metashrew's `KeyValuePointer` stores a list as a `{base}/length` (u32) key
//! plus decimal-indexed `{base}/{i}` element keys, and `get_list()` reads the
//! length then each element. A view that concatenates such a list (e.g. frBTC's
//! `get_pending_payments`) has a *data-dependent* key set (the number of keys
//! grows with the stored length), so the generic synthesizer, which requires a
//! stable key set, rejects it.
//!
//! This module recognizes the pattern directly and emits a `loop` plan:
//!
//!   loop {
//!     count: u(storage( base ++ "/length" )),
//!     body:  storage( base ++ "/" ++ decimal(var) ),
//!   }
//!
//! where `base` may embed the block height (from `select_value(self.height())`)
//! as an 8-byte little-endian splice. As always, nothing ships unless it
//! reproduces the wasm across randomized differential trials, here with
//! oracles that populate real lists (random length + element values).
use vstd::prelude::*;
use crate::analysis::host;
use crate::analysis::host::{holds_key, Oracle, OracleModel, Outcome, Prober, ProberModel, RunModel, RunResult};
use crate::analysis::synth;
use crate::analysis::synth::{push_literal, rand_args, Rng};
use crate::analysis::verify;
use crate::analysis::verify::{differential, Case, CaseSource};
use crate::analysis::AnalysisConfig;
use crate::bytes;
use crate::bytes::{copy_bytes, cut, encode_le, find_subslice, has_suffix, ByteMap};
use crate::plan::copy::copy_bytes_exprs;
use crate::plan::eval::decimal_encode;
use crate::plan::{eval, term};
use crate::plan::{BytesExpr, BytesTerm, NumExpr, NumTerm, Plan, PlanError, World, LOOP_LIMIT};

verus! {

broadcast use term::group_list_terms;

/// The bytes of `/length`.
pub open spec fn length_suffix() -> Seq<u8> {
    seq![47u8, 108, 101, 110, 103, 116, 104]
}

fn suffix_bytes() -> (r: Vec<u8>)
    ensures
        r@ == length_suffix(),
{
    let r: Vec<u8> = vec![47u8, 108, 101, 110, 103, 116, 104];
    assert(r@ =~= length_suffix());
    r
}

/// The key of a list's length.
pub open spec fn length_key_of(base: Seq<u8>) -> Seq<u8> {
    base + length_suffix()
}

/// The key of a list's element: the base, a slash, and the decimal index.
pub open spec fn element_key_of(base: Seq<u8>, i: int) -> Seq<u8> {
    base.push(47) + eval::decimal_ascii(i)
}

pub fn element_key(base: &[u8], i: u32) -> (r: Vec<u8>)
    ensures
        r@ == element_key_of(base@, i as int),
{
    let mut k = copy_bytes(base);
    k.push(47);
    let mut digits = decimal_encode(i as u128);
    k.append(&mut digits);
    k
}

pub fn length_key(base: &[u8]) -> (r: Vec<u8>)
    ensures
        r@ == length_key_of(base@),
{
    let mut k = copy_bytes(base);
    let mut tail = suffix_bytes();
    k.append(&mut tail);
    k
}

/// A list base key, possibly with the block height spliced in.
pub struct BaseTemplate {
    pub prefix: Vec<u8>,
    /// When true, the 8-byte LE height sits between prefix and suffix.
    pub has_height: bool,
    pub suffix: Vec<u8>,
}

/// What a [`BaseTemplate`] is.
pub ghost struct BaseModel {
    pub prefix: Seq<u8>,
    pub has_height: bool,
    pub suffix: Seq<u8>,
}

/// The base key at a height.
pub open spec fn base_key(t: BaseModel, height: u64) -> Seq<u8> {
    if t.has_height {
        t.prefix + bytes::le_bytes(height as int, 8) + t.suffix
    } else {
        t.prefix
    }
}

/// The parts of the base key as an expression.
pub open spec fn base_parts(t: BaseModel) -> Seq<BytesTerm> {
    if t.has_height {
        synth::literal_part(t.prefix) + seq![BytesTerm::Le { of: Box::new(NumTerm::Height), width: 8 }]
            + synth::literal_part(t.suffix)
    } else {
        seq![BytesTerm::Const(t.prefix)]
    }
}

/// The list as an expression.
pub open spec fn list_term(t: BaseModel) -> BytesTerm {
    BytesTerm::Loop {
        count: Box::new(
            NumTerm::ULe(
                Box::new(
                    BytesTerm::Storage(
                        Box::new(BytesTerm::Concat(base_parts(t).push(BytesTerm::Const(length_suffix())))),
                    ),
                ),
            ),
        ),
        body: Box::new(
            BytesTerm::Storage(
                Box::new(
                    BytesTerm::Concat(
                        base_parts(t).push(BytesTerm::Const(seq![47u8])).push(BytesTerm::Decimal(Box::new(NumTerm::Var))),
                    ),
                ),
            ),
        ),
    }
}

impl BaseTemplate {
    pub open spec fn model(self) -> BaseModel {
        BaseModel { prefix: self.prefix@, has_height: self.has_height, suffix: self.suffix@ }
    }

    pub fn concrete(&self, height: u64) -> (r: Vec<u8>)
        ensures
            r@ == base_key(self.model(), height),
    {
        let mut out = copy_bytes(self.prefix.as_slice());
        if self.has_height {
            let mut h = encode_le(height as u128, 8);
            out.append(&mut h);
            let mut tail = copy_bytes(self.suffix.as_slice());
            out.append(&mut tail);
        }
        out
    }

    fn parts(&self) -> (r: Vec<BytesExpr>)
        ensures
            term::bytes_terms(r@) == base_parts(self.model()),
    {
        let mut parts: Vec<BytesExpr> = Vec::new();
        if !self.has_height {
            parts.push(BytesExpr::Const(copy_bytes(self.prefix.as_slice())));
            assert(parts@[0].term() == BytesTerm::Const(self.prefix@));
            assert(term::bytes_terms(parts@) =~= base_parts(self.model()));
            return parts;
        }
        assert(term::bytes_terms(parts@) =~= Seq::empty());
        push_literal(&mut parts, &self.prefix);
        let ghost before = term::bytes_terms(parts@);
        let height = NumExpr::Height;
        assert(height.term() == NumTerm::Height);
        parts.push(BytesExpr::Le { of: Box::new(height), width: 8 });
        assert(parts@.last().term() == BytesTerm::Le { of: Box::new(NumTerm::Height), width: 8 });
        assert(term::bytes_terms(parts@) =~= before.push(parts@.last().term()));
        push_literal(&mut parts, &self.suffix);
        assert(term::bytes_terms(parts@) =~= base_parts(self.model()));
        parts
    }

    /// The list as an expression.
    pub fn list_expr(&self) -> (r: BytesExpr)
        ensures
            r.term() == list_term(self.model()),
    {
        let ghost base = base_parts(self.model());
        let mut length_parts = self.parts();
        let mut element_parts = copy_bytes_exprs(&length_parts);
        length_parts.push(BytesExpr::Const(suffix_bytes()));
        assert(length_parts@.last().term() == BytesTerm::Const(length_suffix()));
        assert(term::bytes_terms(length_parts@) =~= base.push(BytesTerm::Const(length_suffix())));
        let slash: Vec<u8> = vec![47u8];
        assert(slash@ =~= seq![47u8]);
        element_parts.push(BytesExpr::Const(slash));
        assert(element_parts@.last().term() == BytesTerm::Const(seq![47u8]));
        let ghost with_slash = base.push(BytesTerm::Const(seq![47u8]));
        assert(term::bytes_terms(element_parts@) =~= with_slash);
        let var = NumExpr::Var;
        assert(var.term() == NumTerm::Var);
        element_parts.push(BytesExpr::Decimal(Box::new(var)));
        assert(element_parts@.last().term() == BytesTerm::Decimal(Box::new(NumTerm::Var)));
        assert(term::bytes_terms(element_parts@) =~= with_slash.push(BytesTerm::Decimal(Box::new(NumTerm::Var))));
        let length_concat = BytesExpr::Concat(length_parts);
        assert(length_concat.term() == BytesTerm::Concat(base.push(BytesTerm::Const(length_suffix()))));
        let length = BytesExpr::Storage(Box::new(length_concat));
        assert(length.term() == BytesTerm::Storage(
            Box::new(BytesTerm::Concat(base.push(BytesTerm::Const(length_suffix())))),
        ));
        let count = NumExpr::ULe(Box::new(length));
        assert(count.term() == NumTerm::ULe(Box::new(length.term())));
        let element = BytesExpr::Concat(element_parts);
        assert(element.term() == BytesTerm::Concat(with_slash.push(BytesTerm::Decimal(Box::new(NumTerm::Var)))));
        let body = BytesExpr::Storage(Box::new(element));
        assert(body.term() == BytesTerm::Storage(
            Box::new(BytesTerm::Concat(with_slash.push(BytesTerm::Decimal(Box::new(NumTerm::Var))))),
        ));
        BytesExpr::Loop { count: Box::new(count), body: Box::new(body) }
    }
}

/// The template of a base key read at a height: the height's 8 bytes spliced out where
/// they stand first.
pub open spec fn templatized(base: Seq<u8>, height: u64) -> BaseModel {
    match bytes::find_first(base, bytes::le_bytes(height as int, 8)) {
        Some(pos) => BaseModel { prefix: base.take(pos), has_height: true, suffix: base.skip(pos + 8) },
        None => BaseModel { prefix: base, has_height: false, suffix: Seq::empty() },
    }
}

/// Recover a base template from concrete base bytes: splice out the probe's
/// height if its 8-byte LE encoding appears contiguously.
pub fn templatize(base: &[u8], height: u64) -> (r: BaseTemplate)
    ensures
        r.model() == templatized(base@, height),
{
    let h8 = encode_le(height as u128, 8);
    proof {
        bytes::lemma_le_bytes_len(height as int, 8);
    }
    match find_subslice(base, h8.as_slice()) {
        Some(pos) => {
            let total: usize = base.len();
            assert(bytes::occurs_at(base@, h8@, pos as int));
            assert(pos + 8 <= total);
            let prefix = cut(base, 0, pos);
            let suffix = cut(base, pos + 8, total);
            assert(prefix@ =~= base@.take(pos as int));
            assert(suffix@ =~= base@.skip(pos + 8));
            BaseTemplate { prefix, has_height: true, suffix }
        }
        None => {
            let r = BaseTemplate { prefix: copy_bytes(base), has_height: false, suffix: Vec::new() };
            assert(r.suffix@ =~= Seq::empty());
            r
        }
    }
}

/// The template of a base key gives the key back at the height it was read at.
pub proof fn lemma_templatized(base: Seq<u8>, height: u64)
    ensures
        base_key(templatized(base, height), height) == base,
{
    let h8 = bytes::le_bytes(height as int, 8);
    bytes::lemma_le_bytes_len(height as int, 8);
    bytes::lemma_find_first_found(base, h8);
    if let Some(pos) = bytes::find_first(base, h8) {
        assert(bytes::occurs_at(base, h8, pos));
        assert(base.take(pos) + h8 + base.skip(pos + 8) =~= base);
    }
}

/* ─────────────── laws ─────────────── */

/// The first `n` elements of a list, one behind the other.
pub open spec fn elements(w: World, base: Seq<u8>, n: nat) -> Seq<u8>
    decreases n,
{
    if n == 0 {
        Seq::empty()
    } else {
        elements(w, base, (n - 1) as nat) + w.value(element_key_of(base, n - 1))
    }
}

proof fn lemma_concat_push(parts: Seq<BytesTerm>, part: BytesTerm, w: World, var: Option<u128>)
    ensures
        eval::concat_value(parts.push(part), w, var) == match eval::concat_value(parts, w, var) {
            Err(x) => Err::<Seq<u8>, PlanError>(x),
            Ok(b) => match eval::bytes_value(part, w, var) {
                Err(x) => Err(x),
                Ok(c) => Ok(b + c),
            },
        },
{
    assert(parts.push(part).drop_last() =~= parts);
}

proof fn lemma_concat_literal(parts: Seq<BytesTerm>, b: Seq<u8>, w: World, var: Option<u128>)
    ensures
        eval::concat_value(parts + synth::literal_part(b), w, var) == match eval::concat_value(parts, w, var) {
            Err(x) => Err::<Seq<u8>, PlanError>(x),
            Ok(a) => Ok(a + b),
        },
{
    if b.len() == 0 {
        assert(parts + synth::literal_part(b) =~= parts);
        assert(forall|a: Seq<u8>| a + b =~= a);
    } else {
        lemma_concat_push(parts, BytesTerm::Const(b), w, var);
        assert(parts + synth::literal_part(b) =~= parts.push(BytesTerm::Const(b)));
    }
}

/// The parts of a base key come to the key, at the height of the world.
proof fn lemma_base_value(t: BaseModel, w: World, var: Option<u128>)
    ensures
        eval::concat_value(base_parts(t), w, var) == Ok::<Seq<u8>, PlanError>(base_key(t, w.height)),
{
    let none = Seq::<BytesTerm>::empty();
    assert(eval::concat_value(none, w, var) == Ok::<Seq<u8>, PlanError>(Seq::empty()));
    if t.has_height {
        let height = BytesTerm::Le { of: Box::new(NumTerm::Height), width: 8 };
        let first = synth::literal_part(t.prefix);
        lemma_concat_literal(none, t.prefix, w, var);
        assert(none + first =~= first);
        assert(Seq::<u8>::empty() + t.prefix =~= t.prefix);
        lemma_concat_push(first, height, w, var);
        assert(first.push(height) =~= first + seq![height]);
        assert(eval::num_value(NumTerm::Height, w, var) == Ok::<u128, PlanError>(w.height as u128));
        assert(eval::bytes_value(height, w, var) == Ok::<Seq<u8>, PlanError>(bytes::le_bytes(w.height as int, 8)));
        lemma_concat_literal(first + seq![height], t.suffix, w, var);
    } else {
        lemma_concat_push(none, BytesTerm::Const(t.prefix), w, var);
        assert(none.push(BytesTerm::Const(t.prefix)) =~= seq![BytesTerm::Const(t.prefix)]);
        assert(Seq::<u8>::empty() + t.prefix =~= t.prefix);
    }
}

proof fn lemma_elements(t: BaseModel, body: BytesTerm, w: World, n: nat)
    requires
        n <= LOOP_LIMIT,
        body == BytesTerm::Storage(
            Box::new(
                BytesTerm::Concat(
                    base_parts(t).push(BytesTerm::Const(seq![47u8])).push(BytesTerm::Decimal(Box::new(NumTerm::Var))),
                ),
            ),
        ),
    ensures
        eval::loop_value(body, w, n) == Ok::<Seq<u8>, PlanError>(elements(w, base_key(t, w.height), n)),
    decreases n,
{
    if n > 0 {
        lemma_elements(t, body, w, (n - 1) as nat);
        let i = (n - 1) as u128;
        let var = Some(i);
        let base = base_key(t, w.height);
        let slash = BytesTerm::Const(seq![47u8]);
        let digits = BytesTerm::Decimal(Box::new(NumTerm::Var));
        lemma_base_value(t, w, var);
        lemma_concat_push(base_parts(t), slash, w, var);
        assert(eval::bytes_value(slash, w, var) == Ok::<Seq<u8>, PlanError>(seq![47u8]));
        assert(base + seq![47u8] =~= base.push(47));
        lemma_concat_push(base_parts(t).push(slash), digits, w, var);
        assert(eval::num_value(NumTerm::Var, w, var) == Ok::<u128, PlanError>(i));
        assert(eval::bytes_value(digits, w, var) == Ok::<Seq<u8>, PlanError>(eval::decimal_ascii(i as int)));
        let key = BytesTerm::Concat(base_parts(t).push(slash).push(digits));
        assert(eval::bytes_value(key, w, var) == Ok::<Seq<u8>, PlanError>(element_key_of(base, n - 1)));
        assert(eval::bytes_value(body, w, var) == Ok::<Seq<u8>, PlanError>(w.value(element_key_of(base, n - 1))));
    }
}

/// A list plan comes to the stored elements, one behind the other, as many as the
/// stored length says.
pub proof fn lemma_list_value(t: BaseModel, w: World)
    requires
        bytes::low_num(w.value(length_key_of(base_key(t, w.height)))) <= LOOP_LIMIT,
    ensures
        eval::bytes_value(list_term(t), w, None) == Ok::<Seq<u8>, PlanError>(
            elements(
                w,
                base_key(t, w.height),
                bytes::low_num(w.value(length_key_of(base_key(t, w.height)))) as nat,
            ),
        ),
{
    let base = base_key(t, w.height);
    let suffix = BytesTerm::Const(length_suffix());
    lemma_base_value(t, w, None);
    lemma_concat_push(base_parts(t), suffix, w, None);
    assert(eval::bytes_value(suffix, w, None) == Ok::<Seq<u8>, PlanError>(length_suffix()));
    let key = BytesTerm::Concat(base_parts(t).push(suffix));
    assert(eval::bytes_value(key, w, None) == Ok::<Seq<u8>, PlanError>(length_key_of(base)));
    let stored = BytesTerm::Storage(Box::new(key));
    assert(eval::bytes_value(stored, w, None) == Ok::<Seq<u8>, PlanError>(w.value(length_key_of(base))));
    let count = NumTerm::ULe(Box::new(stored));
    assert(eval::num_value(count, w, None) == Ok::<u128, PlanError>(bytes::low_num(w.value(length_key_of(base)))));
    if let BytesTerm::Loop { count: _, body } = list_term(t) {
        lemma_elements(t, *body, w, bytes::low_num(w.value(length_key_of(base))) as nat);
    }
}

/* ─────────────── cases ─────────────── */

/// `n` bytes drawn: the generator's state, and the bytes.
pub open spec fn draw_blob(s: u64, n: nat) -> (u64, Seq<u8>)
    decreases n,
{
    if n == 0 {
        (s, Seq::empty())
    } else {
        let (t, b) = draw_blob(s, (n - 1) as nat);
        let (u, c) = synth::draw64(t);
        (u, b.push((c & 0xff) as u8))
    }
}

/// The first `n` elements of a list drawn: the generator's state, and the storage.
pub open spec fn draw_elements(s: u64, m: Map<Seq<u8>, Seq<u8>>, base: Seq<u8>, n: nat) -> (u64, Map<Seq<u8>, Seq<u8>>)
    decreases n,
{
    if n == 0 {
        (s, m)
    } else {
        let (t, m) = draw_elements(s, m, base, (n - 1) as nat);
        let (u, len) = synth::draw64(t);
        let (v, value) = draw_blob(u, (len % 40 + 1) as nat);
        (v, m.insert(element_key_of(base, n - 1), value))
    }
}

/// A random world with a small random list at the height-specific base.
pub open spec fn draw_list_case(t: BaseModel, arg_count: nat, s: u64) -> Case {
    let (a, h) = synth::draw64(s);
    let height = h % 2_000_000;
    let (b, args) = synth::draw_args(a, arg_count);
    let base = base_key(t, height);
    let (c, n) = synth::draw64(b);
    let count = n % 6;
    let (d, storage) = if count == 0 {
        (c, Map::empty())
    } else {
        draw_elements(
            c,
            Map::<Seq<u8>, Seq<u8>>::empty().insert(length_key_of(base), bytes::le_bytes(count as int, 4)),
            base,
            count as nat,
        )
    };
    Case { state: d, oracle: OracleModel { storage, height, ..host::default_oracle() }, args }
}

/// Cases that populate a list.
pub struct ListCases<'a> {
    pub template: &'a BaseTemplate,
    pub arg_count: usize,
}

fn random_blob(rng: &mut Rng, n: u64) -> (r: Vec<u8>)
    ensures
        (final(rng).state(), r@) == draw_blob(old(rng).state(), n as nat),
{
    let ghost s = rng.state();
    let mut out: Vec<u8> = Vec::new();
    for i in 0..n
        invariant
            (rng.state(), out@) == draw_blob(s, i as nat),
    {
        out.push((rng.next_u64() & 0xff) as u8);
    }
    out
}

impl<'a> CaseSource for ListCases<'a> {
    open spec fn case(&self, s: u64) -> Option<Case> {
        Some(draw_list_case(self.template.model(), self.arg_count as nat, s))
    }

    fn draw(&self, rng: &mut Rng) -> (r: Option<(Oracle, Vec<u128>)>) {
        let mut oracle = Oracle::default();
        oracle.height = rng.next_u64() % 2_000_000;
        let args = rand_args(rng, self.arg_count);
        // random small list at the height-specific base
        let base = self.template.concrete(oracle.height);
        let count: u32 = (rng.next_u64() % 6) as u32; // 0..5, includes empty
        let mut storage: ByteMap<Vec<u8>> = ByteMap::new();
        assert(bytes::bytes_map(storage.map()) =~= Map::empty());
        if count > 0 {
            let ghost s = rng.state();
            storage.insert(length_key(base.as_slice()), encode_le(count as u128, 4));
            let ghost m = Map::<Seq<u8>, Seq<u8>>::empty().insert(length_key_of(base@), bytes::le_bytes(count as int, 4));
            assert(bytes::bytes_map(storage.map()) =~= m);
            for i in 0..count
                invariant
                    (rng.state(), bytes::bytes_map(storage.map())) == draw_elements(s, m, base@, i as nat),
            {
                let ghost before = bytes::bytes_map(storage.map());
                let len: u64 = rng.next_u64() % 40 + 1;
                let value = random_blob(rng, len);
                storage.insert(element_key(base.as_slice(), i), value);
                assert(bytes::bytes_map(storage.map()) =~= before.insert(element_key_of(base@, i as int), value@));
            }
        }
        oracle.storage = storage;
        Some((oracle, args))
    }
}

/* ─────────────── the plan ─────────────── */

/// Arguments that are all zero.
pub open spec fn zero_args(n: nat) -> Seq<u128> {
    Seq::new(n, |i: int| 0u128)
}

/// The base of the list that a run against an empty storage shows: the run succeeds
/// and reads exactly one key, a length.
pub open spec fn list_base(run: RunModel) -> Option<Seq<u8>> {
    if run.outcome is Success && run.keys.len() == 1 && bytes::ends_with(run.keys[0], length_suffix()) {
        Some(run.keys[0].take(run.keys[0].len() - 7))
    } else {
        None
    }
}

/// The world in which a list has three elements, all unset.
pub open spec fn three_elements(base: Seq<u8>) -> OracleModel {
    OracleModel {
        storage: Map::<Seq<u8>, Seq<u8>>::empty().insert(length_key_of(base), bytes::le_bytes(3, 4)),
        ..host::default_oracle()
    }
}

/// Whether a run succeeds and reads the keys of three elements.
pub open spec fn reads_three(run: RunModel, base: Seq<u8>) -> bool {
    run.outcome is Success && forall|i: int| 0 <= i < 3 ==> run.keys.contains(#[trigger] element_key_of(base, i))
}

/// The template of the list that a method reads, if it reads one.
pub open spec fn list_template(p: ProberModel, opcode: u128, arg_count: nat) -> Option<BaseModel> {
    match p.outcome(opcode, zero_args(arg_count), host::default_oracle()) {
        Err(_) => None,
        Ok(run) => match list_base(run) {
            None => None,
            Some(base) => match p.outcome(opcode, zero_args(arg_count), three_elements(base)) {
                Err(_) => None,
                Ok(next) => if reads_three(next, base) {
                    Some(templatized(base, host::default_oracle().height))
                } else {
                    None
                },
            },
        },
    }
}

fn find_template(prober: &Prober, opcode: u128, arg_count: usize) -> (r: Option<BaseTemplate>)
    ensures
        match r {
            Some(t) => list_template(prober.model(), opcode, arg_count as nat) == Some(t.model()),
            None => list_template(prober.model(), opcode, arg_count as nat) is None,
        },
{
    let mut no_args: Vec<u128> = Vec::new();
    for i in 0..arg_count
        invariant
            no_args@.len() == i,
            forall|j: int| 0 <= j < i ==> no_args@[j] == 0,
    {
        no_args.push(0);
    }
    assert(no_args@ =~= zero_args(arg_count as nat));

    // Empty-storage probe: the method must read exactly one key, a
    // `.../length` (length 0: no elements read yet).
    let empty = Oracle::default();
    let base = match prober.run(opcode, no_args.as_slice(), &empty) {
        Err(_) => {
            return None;
        }
        Ok(run) => match read_base(&run) {
            None => {
                return None;
            }
            Some(base) => base,
        },
    };

    // Set the length to a small count and confirm decimal-indexed element
    // keys `{base}/0..{base}/{n-1}` are what get read.
    let mut oracle = Oracle::default();
    let mut storage: ByteMap<Vec<u8>> = ByteMap::new();
    storage.insert(length_key(base.as_slice()), encode_le(3, 4));
    oracle.storage = storage;
    assert(oracle.model().storage =~= three_elements(base@).storage);
    match prober.run(opcode, no_args.as_slice(), &oracle) {
        Err(_) => None,
        Ok(run) => {
            if reads_elements(&run, base.as_slice()) {
                // Recover the base template (height splice).
                Some(templatize(base.as_slice(), 880_001))
            } else {
                None
            }
        }
    }
}

/// Reads the base of a list off a run against an empty storage.
pub fn read_base(run: &RunResult) -> (r: Option<Vec<u8>>)
    ensures
        match r {
            Some(b) => list_base(run.model()) == Some(b@),
            None => list_base(run.model()) is None,
        },
{
    match &run.outcome {
        Outcome::Success(_) => {}
        _ => {
            return None;
        }
    }
    if run.keys.len() != 1 {
        return None;
    }
    assert(run.model().keys[0] == run.keys@[0]@);
    let suffix = suffix_bytes();
    if !has_suffix(run.keys[0].as_slice(), suffix.as_slice()) {
        return None;
    }
    let n: usize = run.keys[0].len();
    let base = cut(run.keys[0].as_slice(), 0, n - 7);
    assert(base@ =~= run.keys@[0]@.take(n - 7));
    Some(base)
}

/// Whether a run reads the keys of three elements.
pub fn reads_elements(run: &RunResult, base: &[u8]) -> (r: bool)
    ensures
        r == reads_three(run.model(), base@),
{
    match &run.outcome {
        Outcome::Success(_) => {}
        _ => {
            return false;
        }
    }
    for i in 0..3u32
        invariant
            forall|j: int| 0 <= j < i ==> run.model().keys.contains(#[trigger] element_key_of(base@, j)),
    {
        let want = element_key(base, i);
        if !holds_key(&run.keys, want.as_slice()) {
            return false;
        }
    }
    true
}

/// The cases that populate a list.
pub open spec fn list_cases(t: BaseModel, arg_count: nat) -> spec_fn(u64) -> Option<Case> {
    |s: u64| Some(draw_list_case(t, arg_count, s))
}

/// The list plan of a method: its expression, and the trials it passed.
pub open spec fn list_plan(p: ProberModel, opcode: u128, arg_count: nat, config: AnalysisConfig) -> Option<(BytesTerm, u32)> {
    match list_template(p, opcode, arg_count) {
        None => None,
        Some(t) => match verify::passed(
            p,
            opcode,
            list_cases(t, arg_count),
            list_term(t),
            config.verify_trials,
            config.verify_seed ^ (opcode as u64) ^ 0x1157,
        ) {
            Some(trials) => Some((list_term(t), trials)),
            None => None,
        },
    }
}

/// Attempt a list-read plan for a view. Returns None if the method isn't a
/// single concatenated list read, or the plan fails verification.
pub fn try_list_plan(prober: &Prober, opcode: u128, arg_count: usize, config: &AnalysisConfig) -> (r: Option<Plan>)
    ensures
        match r {
            Some(plan) => list_plan(prober.model(), opcode, arg_count as nat, *config) == Some((plan.expr.term(), plan.trials)),
            None => list_plan(prober.model(), opcode, arg_count as nat, *config) is None,
        },
{
    match find_template(prober, opcode, arg_count) {
        None => None,
        Some(template) => {
            let expr = template.list_expr();
            let cases = ListCases { template: &template, arg_count };
            assert(verify::case_fn(cases) =~= list_cases(template.model(), arg_count as nat));
            let seed: u64 = config.verify_seed ^ (opcode as u64) ^ 0x1157;
            match differential(prober, opcode, &cases, &expr, config.verify_trials, seed) {
                Some(trials) => Some(Plan { expr, trials }),
                None => None,
            }
        }
    }
}

} // verus!

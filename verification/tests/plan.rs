//! Plan evaluation and the JSON round trip.

use alkabi::json;
use alkabi::plan::{eval_plan, parse_plan, BoolExpr, BytesExpr, NumExpr, ParseError, Plan, PlanEnv, PlanError};
use std::collections::BTreeMap;

struct TestEnv {
    storage: BTreeMap<Vec<u8>, Vec<u8>>,
    height: u64,
    words: Vec<u128>,
}

impl PlanEnv for TestEnv {
    fn storage(&mut self, key: &[u8]) -> Vec<u8> {
        self.storage.get(key).cloned().unwrap_or_default()
    }
    fn height(&self) -> u64 {
        self.height
    }
    fn words(&self) -> &[u128] {
        &self.words
    }
}

fn env(pairs: &[(&[u8], &[u8])], height: u64, words: Vec<u128>) -> TestEnv {
    TestEnv {
        storage: pairs.iter().map(|(k, v)| (k.to_vec(), v.to_vec())).collect(),
        height,
        words,
    }
}

/// An environment that keeps the keys asked for.
struct Recorder {
    inner: TestEnv,
    asked: Vec<Vec<u8>>,
}

impl PlanEnv for Recorder {
    fn storage(&mut self, key: &[u8]) -> Vec<u8> {
        self.asked.push(key.to_vec());
        self.inner.storage(key)
    }
    fn height(&self) -> u64 {
        self.inner.height()
    }
    fn words(&self) -> &[u128] {
        self.inner.words()
    }
}

/// The keys that an expression asks for, and what it gives.
fn asked(expr: BytesExpr) -> (Vec<Vec<u8>>, Result<Vec<u8>, PlanError>) {
    let mut r = Recorder { inner: env(&[(b"a", b"1"), (b"b", b"2")], 7, vec![]), asked: Vec::new() };
    let got = eval_plan(&Plan { expr, trials: 0 }, &mut r);
    (r.asked, got)
}

fn roundtrip(plan: &Plan) -> Plan {
    let text = plan.to_json();
    let value = json::parse(&text).unwrap();
    let parsed = parse_plan(&value).unwrap();
    assert_eq!(parsed.to_json(), text, "plan JSON must round-trip");
    parsed
}

#[test]
fn passthrough_reads_storage() {
    let plan = Plan {
        expr: BytesExpr::Storage(Box::new(BytesExpr::Const(b"/last_note".to_vec()))),
        trials: 0,
    };
    let plan = roundtrip(&plan);
    let mut e = env(&[(b"/last_note", b"hello")], 100, vec![]);
    assert_eq!(eval_plan(&plan, &mut e).unwrap(), b"hello");
}

#[test]
fn le_of_height() {
    let plan = Plan {
        expr: BytesExpr::Le {
            of: Box::new(NumExpr::Height),
            width: 8,
        },
        trials: 0,
    };
    let plan = roundtrip(&plan);
    let mut e = env(&[], 880_001, vec![]);
    assert_eq!(eval_plan(&plan, &mut e).unwrap(), 880_001u64.to_le_bytes());
}

#[test]
fn le_u_of_storage_truncates_width() {
    // getCounter shape: Le(u(storage("/counter")), 8) — takes the low 8 bytes
    // even when the stored value is a full 16-byte u128.
    let plan = Plan {
        expr: BytesExpr::Le {
            of: Box::new(NumExpr::ULe(Box::new(BytesExpr::Storage(Box::new(
                BytesExpr::Const(b"/counter".to_vec()),
            ))))),
            width: 8,
        },
        trials: 0,
    };
    let plan = roundtrip(&plan);
    let value = 42u128.to_le_bytes();
    let mut e = env(&[(b"/counter", &value)], 0, vec![]);
    assert_eq!(eval_plan(&plan, &mut e).unwrap(), 42u64.to_le_bytes());

    // unset key → zero
    let mut empty = env(&[], 0, vec![]);
    assert_eq!(eval_plan(&plan, &mut empty).unwrap(), [0u8; 8]);
}

#[test]
fn conditional_with_default() {
    // getName shape: if len(storage("/name")) > 0 then storage else "oyl corp"
    let key = || BytesExpr::Const(b"/name".to_vec());
    let plan = Plan {
        expr: BytesExpr::If {
            cond: Box::new(BoolExpr::Gt(
                Box::new(NumExpr::Len(Box::new(BytesExpr::Storage(Box::new(key()))))),
                Box::new(NumExpr::Const(0)),
            )),
            if_true: Box::new(BytesExpr::Storage(Box::new(key()))),
            if_false: Box::new(BytesExpr::Const(b"oyl corp".to_vec())),
        },
        trials: 0,
    };
    let plan = roundtrip(&plan);
    let mut set = env(&[(b"/name", b"CUSTOM")], 0, vec![]);
    assert_eq!(eval_plan(&plan, &mut set).unwrap(), b"CUSTOM");
    let mut unset = env(&[], 0, vec![]);
    assert_eq!(eval_plan(&plan, &mut unset).unwrap(), b"oyl corp");
}

#[test]
fn templated_key_from_calldata() {
    // "/user/" ++ calldata[0..2] — an address-keyed getter.
    let plan = Plan {
        expr: BytesExpr::Storage(Box::new(BytesExpr::Concat(vec![
            BytesExpr::Const(b"/user/".to_vec()),
            BytesExpr::Calldata {
                start: 0,
                len: Some(2),
            },
        ]))),
        trials: 0,
    };
    let plan = roundtrip(&plan);
    // word 0 = 0x0201 → first two LE bytes [0x01, 0x02]
    let mut e = env(&[(b"/user/\x01\x02", b"balance!")], 0, vec![0x0201]);
    assert_eq!(eval_plan(&plan, &mut e).unwrap(), b"balance!");
}

#[test]
fn arithmetic_and_division() {
    // (u(a) + u(b)) / 2 — the "average of two counters" example.
    let sum = NumExpr::Add(
        Box::new(NumExpr::ULe(Box::new(BytesExpr::Storage(Box::new(
            BytesExpr::Const(b"/counter1".to_vec()),
        ))))),
        Box::new(NumExpr::ULe(Box::new(BytesExpr::Storage(Box::new(
            BytesExpr::Const(b"/counter2".to_vec()),
        ))))),
    );
    let plan = Plan {
        expr: BytesExpr::Le {
            of: Box::new(NumExpr::Div(Box::new(sum), Box::new(NumExpr::Const(2)))),
            width: 16,
        },
        trials: 0,
    };
    let plan = roundtrip(&plan);
    let mut e = env(
        &[
            (b"/counter1", &10u128.to_le_bytes()),
            (b"/counter2", &20u128.to_le_bytes()),
        ],
        0,
        vec![],
    );
    assert_eq!(eval_plan(&plan, &mut e).unwrap(), 15u128.to_le_bytes());
}

fn c(b: &[u8]) -> BytesExpr {
    BytesExpr::Const(b.to_vec())
}

fn eval(expr: BytesExpr, words: Vec<u128>) -> Result<Vec<u8>, PlanError> {
    eval_plan(&Plan { expr, trials: 0 }, &mut env(&[(b"k", b"value")], 7, words))
}

fn num(n: NumExpr) -> Result<u128, PlanError> {
    eval(BytesExpr::Le { of: Box::new(n), width: 16 }, vec![5, 9]).map(|b| u128::from_le_bytes(b.try_into().unwrap()))
}

fn k(n: u128) -> Box<NumExpr> {
    Box::new(NumExpr::Const(n))
}

#[test]
fn slices_take_a_range() {
    let slice = |start: u128, len: u128| {
        eval(BytesExpr::Slice { of: Box::new(c(b"abcdef")), start: k(start), len: k(len) }, vec![])
    };
    assert_eq!(slice(1, 3).unwrap(), b"bcd");
    assert_eq!(slice(6, 0).unwrap(), b"");
    assert_eq!(slice(4, 3), Err(PlanError::SliceRange { start: 4, len: 3, total: 6 }));
    assert!(matches!(slice(u128::MAX, 2), Err(PlanError::SliceRange { .. })));
}

#[test]
fn loops_concatenate_their_rounds() {
    let body = BytesExpr::Le { of: Box::new(NumExpr::Var), width: 1 };
    let looped = |count: u128| BytesExpr::Loop { count: k(count), body: Box::new(BytesExpr::Le { of: Box::new(NumExpr::Var), width: 1 }) };
    assert_eq!(eval(looped(4), vec![]).unwrap(), [0, 1, 2, 3]);
    assert_eq!(eval(looped(0), vec![]).unwrap(), b"");
    assert_eq!(eval(looped(u128::MAX), vec![]), Err(PlanError::LoopCount(u128::MAX)));
    assert_eq!(eval(body, vec![]), Err(PlanError::NoLoop));
}

#[test]
fn hex_and_decimal_text() {
    assert_eq!(eval(BytesExpr::Hex(Box::new(c(&[0x0a, 0xff]))), vec![]).unwrap(), b"0aff");
    assert_eq!(eval(BytesExpr::Decimal(k(1234567890)), vec![]).unwrap(), b"1234567890");
    assert_eq!(eval(BytesExpr::Decimal(k(0)), vec![]).unwrap(), b"0");
}

#[test]
fn numbers_wrap_and_divide() {
    assert_eq!(num(NumExpr::Add(k(u128::MAX), k(2))), Ok(1));
    assert_eq!(num(NumExpr::Sub(k(1), k(2))), Ok(u128::MAX));
    assert_eq!(num(NumExpr::Mul(k(1 << 127), k(2))), Ok(0));
    assert_eq!(num(NumExpr::Mod(k(17), k(5))), Ok(2));
    assert_eq!(num(NumExpr::Shl(k(3), k(4))), Ok(48));
    assert_eq!(num(NumExpr::Shr(k(48), k(4))), Ok(3));
    assert_eq!(num(NumExpr::Xor(k(6), k(3))), Ok(5));
    assert_eq!(num(NumExpr::Word(1)), Ok(9));
    assert_eq!(num(NumExpr::Height), Ok(7));
    assert_eq!(num(NumExpr::Word(2)), Err(PlanError::MissingWord(2)));
    assert_eq!(num(NumExpr::Div(k(1), k(0))), Err(PlanError::DivisionByZero));
    assert_eq!(num(NumExpr::Mod(k(1), k(0))), Err(PlanError::ModuloByZero));
    assert_eq!(eval(BytesExpr::Le { of: k(1), width: 17 }, vec![]), Err(PlanError::Width(17)));
    assert!(matches!(eval(BytesExpr::Calldata { start: 40, len: None }, vec![1]), Err(PlanError::CalldataRange { start: 40 })));
}

#[test]
fn parse_errors_are_told_apart() {
    let read = |s: &str| parse_plan(&json::parse(s).unwrap());
    assert_eq!(read("{\"v\":1}"), Err(ParseError::MissingExpr));
    assert_eq!(read("{\"expr\":1}"), Err(ParseError::ExpectedObject));
    assert_eq!(read("{\"expr\":{\"bytes\":\"0g\"}}"), Err(ParseError::Hex));
    assert_eq!(read("{\"expr\":{\"what\":1}}"), Err(ParseError::Unrecognized));
    assert_eq!(read("{\"expr\":{\"le\":{\"of\":{\"num\":\"1\"}}}}"), Err(ParseError::ExpectedNumber));
    assert_eq!(read("{\"expr\":{\"concat\":1}}"), Err(ParseError::ExpectedArray));
    assert_eq!(read("{\"expr\":{\"decimal\":{\"add\":[{\"num\":\"1\"}]}}}"), Err(ParseError::Operands));
    assert_eq!(read("{\"expr\":{\"slice\":{}}}"), Err(ParseError::MissingField));
    assert_eq!(read("{\"expr\":{\"decimal\":{\"num\":\"x\"}}}"), Err(ParseError::Constant));
}

#[test]
fn plans_are_written_in_order() {
    let plan = Plan {
        expr: BytesExpr::Concat(vec![
            c(&[1, 0xab]),
            BytesExpr::Calldata { start: 2, len: None },
            BytesExpr::Le { of: Box::new(NumExpr::Add(k(1), Box::new(NumExpr::Var))), width: 4 },
        ]),
        trials: 64,
    };
    assert_eq!(
        plan.to_json(),
        "{\"v\":1,\"expr\":{\"concat\":[{\"bytes\":\"01ab\"},{\"calldata\":{\"start\":2}},{\"le\":{\"of\":{\"add\":[{\"num\":\"1\"},{\"var\":{}}]},\"width\":4}}]},\"trials\":64}"
    );
    let again = roundtrip(&plan);
    assert_eq!(again, plan);
}

#[test]
fn only_what_is_evaluated_is_read() {
    let key = |k: &str| BytesExpr::Storage(Box::new(BytesExpr::Const(k.as_bytes().to_vec())));
    let len = |k: &str| Box::new(NumExpr::Len(Box::new(key(k))));
    let num = |n: u128| Box::new(NumExpr::Const(n));
    let names = |ks: &[&str]| ks.iter().map(|k| k.as_bytes().to_vec()).collect::<Vec<_>>();
    // a conditional reads its condition and the chosen branch; an error in the other does not matter
    let failing = BytesExpr::Le { of: Box::new(NumExpr::Div(num(1), num(0))), width: 8 };
    let chosen = BytesExpr::If {
        cond: Box::new(BoolExpr::Eq(len("c"), num(0))),
        if_true: Box::new(key("a")),
        if_false: Box::new(BytesExpr::Concat(vec![key("b"), failing.clone()])),
    };
    assert_eq!(asked(chosen), (names(&["c", "a"]), Ok(b"1".to_vec())));
    // a loop beyond the limit reads its count only
    let beyond = BytesExpr::Loop {
        count: Box::new(NumExpr::Add(len("a"), num(65_536))),
        body: Box::new(key("b")),
    };
    assert_eq!(asked(beyond), (names(&["a"]), Err(PlanError::LoopCount(65_537))));
    // one within it reads its count, then its body round by round
    let within = BytesExpr::Loop { count: Box::new(NumExpr::Add(len("a"), num(1))), body: Box::new(key("b")) };
    assert_eq!(asked(within), (names(&["a", "b", "b"]), Ok(b"22".to_vec())));
    // nothing is read after an error
    let stopped = BytesExpr::Concat(vec![key("a"), failing, key("b")]);
    assert_eq!(asked(stopped), (names(&["a"]), Err(PlanError::DivisionByZero)));
    // a divisor comes first, and the dividend not at all if it is zero
    let divided = BytesExpr::Le { of: Box::new(NumExpr::Div(len("a"), len("b"))), width: 1 };
    assert_eq!(asked(divided), (names(&["b", "a"]), Ok(vec![1])));
    let nothing = BytesExpr::Le { of: Box::new(NumExpr::Mod(len("a"), len("c"))), width: 1 };
    assert_eq!(asked(nothing), (names(&["c"]), Err(PlanError::ModuloByZero)));
    // a conjunction stops at the first part that is false
    let both = BytesExpr::If {
        cond: Box::new(BoolExpr::And(vec![BoolExpr::Eq(len("c"), num(1)), BoolExpr::Eq(len("a"), num(1))])),
        if_true: Box::new(key("a")),
        if_false: Box::new(key("b")),
    };
    assert_eq!(asked(both), (names(&["c", "b"]), Ok(b"2".to_vec())));
}

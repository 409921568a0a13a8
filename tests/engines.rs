use std::sync::Mutex;

use fib::checkpoint::{decode_state, encode_state};
use fib::decompose::{fold_partials, parallel_fibonacci, split_exponent, worker_power};
use fib::doubling::{doubled_even, doubled_odd, fib_pair, DoublingError};
use fib::iterative::{resume_point, run_iterative};
use fib::matrix::{fibonacci, matrix_mult, matrix_pow, Matrix};
use fib::natural::Natural;
use fib::state::{CheckpointStore, ComputationState, MemoryStore, ProgressSink};

fn dec(n: &Natural) -> String {
    String::from_utf8(n.to_decimal()).unwrap()
}

fn big(s: &str) -> Natural {
    let digits: Vec<u8> = s.bytes().map(|c| c - b'0').collect();
    Natural::from_decimal_digits(&digits)
}

struct LogStore {
    saved: Vec<ComputationState>,
    fail_after: Option<usize>,
}

impl LogStore {
    fn new() -> LogStore {
        LogStore { saved: Vec::new(), fail_after: None }
    }
}

impl CheckpointStore for LogStore {
    fn save(&mut self, state: &ComputationState) -> bool {
        if let Some(k) = self.fail_after {
            if self.saved.len() >= k {
                return false;
            }
        }
        self.saved.push(state.clone());
        true
    }
}

struct Recorder {
    updates: Mutex<Vec<(u64, String, u64, u64)>>,
    refuse: bool,
}

impl Recorder {
    fn new() -> Recorder {
        Recorder { updates: Mutex::new(Vec::new()), refuse: false }
    }
}

impl ProgressSink for Recorder {
    fn update(&self, index: u64, result: &Natural, done: u64, total: u64) -> bool {
        if self.refuse {
            return false;
        }
        self.updates.lock().unwrap().push((index, dec(result), done, total));
        true
    }
}

fn matrix_text(m: &Matrix) -> [String; 4] {
    [dec(&m.m00), dec(&m.m01), dec(&m.m10), dec(&m.m11)]
}

#[test]
fn known_values() {
    assert_eq!(dec(&fibonacci(0)), "0");
    assert_eq!(dec(&fibonacci(1)), "1");
    assert_eq!(dec(&fibonacci(2)), "1");
    assert_eq!(dec(&fibonacci(10)), "55");
    assert_eq!(dec(&fibonacci(50)), "12586269025");
    assert_eq!(dec(&fibonacci(100)), "354224848179261915075");
}

#[test]
fn matrix_and_doubling_agree() {
    for n in 0..120u64 {
        let mut store = LogStore::new();
        let (a, b) = fib_pair(n, &None, &mut store).unwrap();
        assert_eq!(dec(&a), dec(&fibonacci(n)));
        assert_eq!(dec(&b), dec(&fibonacci(n + 1)));
    }
}

#[test]
fn doubling_saves_each_level_with_its_pair() {
    let mut store = LogStore::new();
    let (a, b) = fib_pair(10, &None, &mut store).unwrap();
    assert_eq!(dec(&a), "55");
    assert_eq!(dec(&b), "89");
    let indices: Vec<u64> = store.saved.iter().map(|s| s.index).collect();
    assert_eq!(indices, vec![1, 2, 5, 10]);
    for s in &store.saved {
        assert_eq!(dec(&s.a), dec(&fibonacci(s.index)));
        assert_eq!(dec(&s.b), dec(&fibonacci(s.index + 1)));
    }
}

#[test]
fn doubling_resumes_from_checkpoint() {
    let resume = Some(ComputationState { index: 5, a: big("5"), b: big("8") });
    let mut store = LogStore::new();
    let (a, b) = fib_pair(10, &resume, &mut store).unwrap();
    assert_eq!(dec(&a), "55");
    assert_eq!(dec(&b), "89");
    let indices: Vec<u64> = store.saved.iter().map(|s| s.index).collect();
    assert_eq!(indices, vec![10]);
}

#[test]
fn doubling_stops_when_a_save_fails() {
    let mut store = LogStore { saved: Vec::new(), fail_after: Some(2) };
    assert_eq!(fib_pair(10, &None, &mut store).unwrap_err(), DoublingError::SaveFailed);
}

#[test]
fn doubling_refuses_inconsistent_resume() {
    let resume = Some(ComputationState { index: 5, a: big("100"), b: big("1") });
    let mut store = LogStore::new();
    assert_eq!(fib_pair(10, &resume, &mut store).unwrap_err(), DoublingError::InconsistentResume);
}

#[test]
fn doubling_identity_values() {
    // k = 10: F(10) = 55, F(11) = 89, F(20) = 6765, F(21) = 10946.
    assert_eq!(dec(&doubled_even(&big("55"), &big("89"))), "6765");
    assert_eq!(dec(&doubled_odd(&big("55"), &big("89"))), "10946");
    for k in 0..40u64 {
        let a = fibonacci(k);
        let b = fibonacci(k + 1);
        assert_eq!(dec(&doubled_even(&a, &b)), dec(&fibonacci(2 * k)));
        assert_eq!(dec(&doubled_odd(&a, &b)), dec(&fibonacci(2 * k + 1)));
    }
}

#[test]
fn power_of_sum_is_product_of_powers() {
    let m = Matrix {
        m00: big("2"),
        m01: big("3"),
        m10: big("5"),
        m11: big("7"),
    };
    for (a, b) in [(0u64, 0u64), (0, 3), (4, 0), (3, 5), (7, 9)] {
        let lhs = matrix_pow(&m, a + b);
        let rhs = matrix_mult(&matrix_pow(&m, a), &matrix_pow(&m, b));
        assert_eq!(matrix_text(&lhs), matrix_text(&rhs));
    }
    let sq = matrix_pow(&m, 2);
    assert_eq!(matrix_text(&sq), ["19", "27", "45", "64"].map(String::from));
}

#[test]
fn matrix_mult_exact() {
    let f = Matrix::fibonacci_matrix();
    let p = matrix_mult(&f, &f);
    assert_eq!(matrix_text(&p), ["2", "1", "1", "1"].map(String::from));
    let i = Matrix::identity();
    assert_eq!(matrix_text(&matrix_mult(&i, &p)), matrix_text(&p));
}

#[test]
fn split_gives_remainder_to_worker_zero() {
    assert_eq!(split_exponent(10, 3), vec![4, 3, 3]);
    assert_eq!(split_exponent(2, 4), vec![2, 0, 0, 0]);
    assert_eq!(split_exponent(7, 1), vec![7]);
}

#[test]
fn parallel_matches_unsplit_power() {
    for n in 0..60u64 {
        for workers in 1..6usize {
            let sink = Recorder::new();
            let r = parallel_fibonacci(n, workers, &sink).unwrap();
            assert_eq!(dec(&r), dec(&fibonacci(n)));
        }
    }
}

#[test]
fn parallel_equals_matrix_engine() {
    let sink = Recorder::new();
    assert_eq!(dec(&parallel_fibonacci(10, 3, &sink).unwrap()), "55");
    assert_eq!(dec(&parallel_fibonacci(0, 4, &sink).unwrap()), "0");
    assert_eq!(dec(&parallel_fibonacci(1, 3, &sink).unwrap()), "1");
    assert_eq!(dec(&parallel_fibonacci(50, 7, &sink).unwrap()), "12586269025");
}

#[test]
fn parallel_large_index() {
    let sink = Recorder::new();
    let r = parallel_fibonacci(100, 4, &sink).unwrap();
    assert_eq!(dec(&r), "354224848179261915075");
}

#[test]
fn worker_reports_local_progress() {
    let sink = Recorder::new();
    let m = worker_power(5, 42, &sink).unwrap();
    assert_eq!(matrix_text(&m), ["8", "5", "5", "3"].map(String::from));
    let updates = sink.updates.lock().unwrap().clone();
    assert_eq!(
        updates,
        vec![
            (42, "1".to_string(), 3, 5),
            (42, "1".to_string(), 4, 5),
            (42, "8".to_string(), 5, 5),
        ]
    );
}

#[test]
fn worker_stops_when_progress_is_unreachable() {
    let sink = Recorder { updates: Mutex::new(Vec::new()), refuse: true };
    assert!(worker_power(5, 5, &sink).is_none());
    assert!(parallel_fibonacci(20, 2, &sink).is_none());
    assert_eq!(
        matrix_text(&worker_power(0, 0, &sink).unwrap()),
        ["1", "0", "0", "1"].map(String::from)
    );
    assert_eq!(dec(&parallel_fibonacci(0, 3, &sink).unwrap()), "0");
}

#[test]
fn fold_stops_on_missing_part() {
    let parts = vec![Some(Matrix::fibonacci_matrix()), None];
    assert!(fold_partials(&parts).is_none());
    let parts = vec![Some(Matrix::fibonacci_matrix()), Some(Matrix::fibonacci_matrix())];
    assert_eq!(matrix_text(&fold_partials(&parts).unwrap()), ["2", "1", "1", "1"].map(String::from));
}

#[test]
fn checkpoint_text_is_exact() {
    let s = ComputationState { index: 12, a: big("144"), b: big("233") };
    assert_eq!(encode_state(&s), b"index=12\na=144\nb=233\n".to_vec());
    let z = ComputationState::initial();
    assert_eq!(encode_state(&z), b"index=0\na=0\nb=1\n".to_vec());
}

#[test]
fn checkpoint_round_trip() {
    let s = ComputationState {
        index: u64::MAX,
        a: big("12586269025"),
        b: big("340282366920938463463374607431768211457"),
    };
    let back = decode_state(&encode_state(&s)).unwrap();
    assert_eq!(back.index, s.index);
    assert_eq!(dec(&back.a), dec(&s.a));
    assert_eq!(dec(&back.b), dec(&s.b));
}

#[test]
fn corrupted_checkpoint_is_none() {
    for text in [
        "",
        "index=12\na=144\nb=233",
        "index=12\na=144\nb=233\n\n",
        "index=\na=144\nb=233\n",
        "index=12\na=\nb=233\n",
        "index=12\na=144\nb=\n",
        "index=1x\na=144\nb=233\n",
        "index=12\nb=144\na=233\n",
        "{\"index\":12}",
        "index=18446744073709551616\na=1\nb=1\n",
    ] {
        assert!(decode_state(text.as_bytes()).is_none(), "{:?}", text);
    }
    let ok = decode_state(b"index=007\na=013\nb=21\n").unwrap();
    assert_eq!(ok.index, 7);
    assert_eq!(dec(&ok.a), "13");
}

#[test]
fn iterative_resume_is_idempotent() {
    let mut store = LogStore::new();
    let first = run_iterative(ComputationState::initial(), 100, 30, &mut store).unwrap();
    assert_eq!(first.index, 100);
    assert_eq!(dec(&first.a), "354224848179261915075");
    let indices: Vec<u64> = store.saved.iter().map(|s| s.index).collect();
    assert_eq!(indices, vec![30, 60, 90, 100]);
    let text = encode_state(store.saved.last().unwrap());
    let loaded = decode_state(&text);
    let start = resume_point(loaded, 100);
    let mut again = LogStore::new();
    let second = run_iterative(start, 100, 30, &mut again).unwrap();
    assert_eq!(dec(&second.a), dec(&first.a));
    assert_eq!(dec(&second.b), dec(&first.b));
    let middle = store.saved[1].clone();
    let third = run_iterative(resume_point(Some(middle), 100), 100, 30, &mut LogStore::new()).unwrap();
    assert_eq!(dec(&third.a), dec(&first.a));
}

#[test]
fn iterative_without_interval_saves_at_end_only() {
    let mut store = LogStore::new();
    let r = run_iterative(ComputationState::initial(), 10, 0, &mut store).unwrap();
    assert_eq!(dec(&r.a), "55");
    assert_eq!(store.saved.len(), 1);
    let mut failing = LogStore { saved: Vec::new(), fail_after: Some(0) };
    assert!(run_iterative(ComputationState::initial(), 10, 3, &mut failing).is_none());
}

#[test]
fn resume_point_rejects_later_checkpoint() {
    let later = ComputationState { index: 50, a: big("1"), b: big("2") };
    assert_eq!(resume_point(Some(later), 10).index, 0);
    assert_eq!(resume_point(None, 10).index, 0);
    let earlier = ComputationState { index: 5, a: big("5"), b: big("8") };
    assert_eq!(resume_point(Some(earlier), 10).index, 5);
}

#[test]
fn natural_arithmetic() {
    let a = big("340282366920938463463374607431768211456");
    let b = big("18446744073709551616");
    assert_eq!(dec(&a.add(&b)), "340282366920938463481821351505477763072");
    assert_eq!(dec(&b.mul(&b)), "340282366920938463463374607431768211456");
    assert_eq!(dec(&a.sub(&b)), "340282366920938463444927863358058659840");
    assert!(b.le(&a));
    assert!(!a.le(&b));
    assert!(a.equals(&b.mul(&b)));
    assert_eq!(dec(&Natural::from_u64(u64::MAX)), "18446744073709551615");
    assert_eq!(Natural::from_u64(1234).to_decimal_digits(), vec![1, 2, 3, 4]);
    assert_eq!(dec(&Natural::zero()), "0");
    assert_eq!(dec(&Natural::one().duplicate()), "1");
}

#[test]
fn memory_store_keeps_last_record() {
    let mut store = MemoryStore::new();
    assert!(store.record.is_none());
    let r = run_iterative(ComputationState::initial(), 20, 7, &mut store).unwrap();
    let last = store.record.clone().unwrap();
    assert_eq!(last.index, 20);
    assert_eq!(dec(&last.a), dec(&r.a));
    assert_eq!(dec(&last.a), "6765");
    let mut store = MemoryStore::new();
    let (a, b) = fib_pair(11, &None, &mut store).unwrap();
    let last = store.record.clone().unwrap();
    assert_eq!((last.index, dec(&last.a), dec(&last.b)), (11, dec(&a), dec(&b)));
    assert_eq!(dec(&a), "89");
}

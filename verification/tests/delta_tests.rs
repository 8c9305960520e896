use folder_sync::delta::Delta;
use folder_sync::errors::ErrorCode;
use folder_sync::op::{Operation, PlainTextAttributes};

fn attrs() -> PlainTextAttributes {
    PlainTextAttributes {}
}

#[test]
fn builder_merges_neighbours_of_one_kind() {
    let mut d = Delta::new();
    d.retain(2, attrs());
    d.retain(3, attrs());
    d.insert("ab", attrs());
    d.insert("cd", attrs());
    d.delete(1);
    d.delete(4);
    assert_eq!(
        d.ops(),
        &vec![Operation::retain(5), Operation::insert("abcd"), Operation::delete(5)]
    );
    assert_eq!(d.base_len(), 10);
    assert_eq!(d.target_len(), 9);
}

#[test]
fn builder_puts_insert_before_delete() {
    let mut d = Delta::new();
    d.retain(1, attrs());
    d.delete(2);
    d.insert("x", attrs());
    assert_eq!(
        d.ops(),
        &vec![Operation::retain(1), Operation::insert("x"), Operation::delete(2)]
    );
    let mut e = Delta::new();
    e.insert("a", attrs());
    e.delete(2);
    e.insert("b", attrs());
    assert_eq!(e.ops(), &vec![Operation::insert("ab"), Operation::delete(2)]);
}

#[test]
fn builder_drops_empty_operations() {
    let mut d = Delta::new();
    d.retain(0, attrs());
    d.insert("", attrs());
    d.delete(0);
    assert!(d.is_empty());
    assert_eq!(d.base_len(), 0);
    assert_eq!(d.target_len(), 0);
}

#[test]
fn apply_runs_left_to_right() {
    let mut d = Delta::new();
    d.retain(2, attrs());
    d.insert("XY", attrs());
    d.delete(1);
    d.retain(2, attrs());
    assert_eq!(d.apply("abcde"), Ok("abXYde".to_string()));
}

#[test]
fn apply_refuses_a_document_of_another_length() {
    let mut d = Delta::new();
    d.retain(3, attrs());
    assert_eq!(d.apply("ab"), Err(ErrorCode::MalformedDelta));
    assert_eq!(d.apply("abcd"), Err(ErrorCode::MalformedDelta));
}

#[test]
fn lengths_count_scalar_values_not_bytes() {
    let mut d = Delta::new();
    d.retain(1, attrs());
    d.insert("é😁", attrs());
    d.delete(1);
    assert_eq!(d.target_len(), 3);
    assert_eq!(d.apply("😁x"), Ok("😁é😁".to_string()));
}

#[test]
fn compose_equals_applying_in_turn() {
    let mut a = Delta::new();
    a.retain(2, attrs());
    a.insert("XY", attrs());
    a.delete(1);
    a.retain(2, attrs());
    let mut b = Delta::new();
    b.delete(1);
    b.retain(3, attrs());
    b.insert("!", attrs());
    b.retain(2, attrs());
    let c = a.compose(&b).unwrap();
    let mid = a.apply("abcde").unwrap();
    assert_eq!(c.apply("abcde"), b.apply(&mid));
    assert_eq!(c.apply("abcde"), Ok("bXY!de".to_string()));
    assert_eq!(c.base_len(), 5);
    assert_eq!(c.target_len(), 6);
}

#[test]
fn compose_refuses_lengths_that_do_not_meet() {
    let mut a = Delta::new();
    a.insert("abc", attrs());
    let mut b = Delta::new();
    b.retain(2, attrs());
    assert_eq!(a.compose(&b).err(), Some(ErrorCode::MalformedDelta));
}

#[test]
fn transform_converges() {
    let mut a = Delta::new();
    a.retain(1, attrs());
    a.insert("A", attrs());
    a.delete(2);
    a.retain(2, attrs());
    let mut b = Delta::new();
    b.retain(2, attrs());
    b.delete(2);
    b.insert("B", attrs());
    b.retain(1, attrs());
    let (a1, b1) = a.transform(&b).unwrap();
    let left = b1.apply(&a.apply("abcde").unwrap()).unwrap();
    let right = a1.apply(&b.apply("abcde").unwrap()).unwrap();
    assert_eq!(left, right);
    assert_eq!(left, "aABe");
}

#[test]
fn transform_puts_the_first_delta_first_on_a_tie() {
    let mut a = Delta::new();
    a.retain(1, attrs());
    a.insert("L", attrs());
    a.retain(1, attrs());
    let mut b = Delta::new();
    b.retain(1, attrs());
    b.insert("R", attrs());
    b.retain(1, attrs());
    let (a1, b1) = a.transform(&b).unwrap();
    assert_eq!(
        a1.ops(),
        &vec![Operation::retain(1), Operation::insert("L"), Operation::retain(2)]
    );
    assert_eq!(
        b1.ops(),
        &vec![Operation::retain(2), Operation::insert("R"), Operation::retain(1)]
    );
    assert_eq!(b1.apply(&a.apply("xy").unwrap()), Ok("xLRy".to_string()));
    assert_eq!(a1.apply(&b.apply("xy").unwrap()), Ok("xLRy".to_string()));
}

#[test]
fn transform_refuses_different_base_lengths() {
    let mut a = Delta::new();
    a.retain(1, attrs());
    let mut b = Delta::new();
    b.retain(2, attrs());
    assert_eq!(a.transform(&b).err(), Some(ErrorCode::MalformedDelta));
}

#[test]
fn bytes_round_trip() {
    let mut d = Delta::new();
    d.retain(2, attrs());
    d.insert("é😁", attrs());
    d.delete(3);
    let bytes = d.to_bytes();
    let mut expected = vec![b'r', 2, 0, 0, 0, 0, 0, 0, 0, b'i', 6, 0, 0, 0, 0, 0, 0, 0];
    expected.extend_from_slice("é😁".as_bytes());
    expected.extend_from_slice(&[b'd', 3, 0, 0, 0, 0, 0, 0, 0]);
    assert_eq!(bytes, expected);
    let back = Delta::from_bytes(&bytes).unwrap();
    assert_eq!(back.ops(), d.ops());
    assert_eq!(back.base_len(), 5);
    assert_eq!(back.target_len(), 4);
}

#[test]
fn from_bytes_refuses_corrupt_input() {
    assert_eq!(Delta::from_bytes(&[b'r', 1, 0]).err(), Some(ErrorCode::MalformedDelta));
    assert_eq!(
        Delta::from_bytes(&[b'x', 1, 0, 0, 0, 0, 0, 0, 0]).err(),
        Some(ErrorCode::MalformedDelta)
    );
    assert_eq!(
        Delta::from_bytes(&[b'i', 2, 0, 0, 0, 0, 0, 0, 0, b'a']).err(),
        Some(ErrorCode::MalformedDelta)
    );
    assert_eq!(
        Delta::from_bytes(&[b'i', 1, 0, 0, 0, 0, 0, 0, 0, 0xff]).err(),
        Some(ErrorCode::MalformedDelta)
    );
}

#[test]
fn from_bytes_normalises_what_it_reads() {
    let bytes = vec![
        b'r', 1, 0, 0, 0, 0, 0, 0, 0, b'r', 2, 0, 0, 0, 0, 0, 0, 0, b'd', 0, 0, 0, 0, 0, 0, 0, 0,
    ];
    let d = Delta::from_bytes(&bytes).unwrap();
    assert_eq!(d.ops(), &vec![Operation::retain(3)]);
    assert!(Delta::from_bytes(&[]).unwrap().is_empty());
}

#[test]
fn json_text_of_a_delta() {
    let mut d = Delta::new();
    d.retain(2, attrs());
    d.insert("a\"b\\c\n\r\t\u{1}\u{1f}é😁", attrs());
    d.delete(1234567890);
    assert_eq!(
        d.to_json(),
        r#"[{"retain":2},{"insert":"a\"b\\c\n\r\t\u0001\u001fé😁"},{"delete":1234567890}]"#
    );
    assert_eq!(Delta::new().to_json(), "[]");
    let mut one = Delta::new();
    one.delete(10);
    assert_eq!(one.to_json(), r#"[{"delete":10}]"#);
}

#[test]
fn a_cloned_delta_is_the_same() {
    let mut d = Delta::new();
    d.retain(2, attrs());
    d.insert("ab", attrs());
    d.delete(1);
    let copy = d.clone();
    assert_eq!(copy, d);
    assert_eq!(copy.ops(), d.ops());
    assert_eq!(copy.base_len(), 3);
    assert_eq!(copy.target_len(), 4);
}

#[test]
fn operations_know_their_kind_and_length() {
    assert!(Operation::delete(2).is_delete());
    assert!(Operation::retain(2).is_retain());
    assert!(Operation::insert("é😁").is_insert());
    assert!(!Operation::insert("a").is_retain());
    assert_eq!(Operation::insert("é😁").len(), 2);
    assert_eq!(Operation::retain(7).len(), 7);
    assert_eq!(Operation::delete(3).len(), 3);
    assert_eq!(Operation::insert("ab").clone(), Operation::insert("ab"));
    let mut d = Delta::new();
    d.add(Operation::retain(1));
    d.add(Operation::insert("x"));
    d.add(Operation::delete(2));
    assert_eq!(d.apply("abc"), Ok("ax".to_string()));
}

/// A small generator of numbers that gives the same run for the same seed.
struct Dice(u64);

impl Dice {
    fn roll(&mut self, sides: usize) -> usize {
        self.0 ^= self.0 << 13;
        self.0 ^= self.0 >> 7;
        self.0 ^= self.0 << 17;
        (self.0 % sides as u64) as usize
    }
}

fn random_text(dice: &mut Dice, max: usize) -> String {
    let letters = ['a', 'b', 'é', '😁', '\n', '"'];
    (0..dice.roll(max + 1)).map(|_| letters[dice.roll(letters.len())]).collect()
}

/// A delta for a document of `len` characters, built of operations in any order.
fn random_delta(dice: &mut Dice, len: usize) -> Delta {
    let mut d = Delta::new();
    let mut left = len;
    while left > 0 || dice.roll(3) == 0 {
        match dice.roll(3) {
            0 => d.insert(&random_text(dice, 3), attrs()),
            1 => {
                let n = dice.roll(left + 1);
                d.retain(n, attrs());
                left -= n;
            }
            _ => {
                let n = dice.roll(left + 1);
                d.delete(n);
                left -= n;
            }
        }
    }
    d
}

fn assert_canonical(d: &Delta) {
    let ops = d.ops();
    for op in ops.iter() {
        assert!(op.len() > 0);
    }
    for pair in ops.windows(2) {
        let same = (pair[0].is_delete() && pair[1].is_delete())
            || (pair[0].is_retain() && pair[1].is_retain())
            || (pair[0].is_insert() && pair[1].is_insert());
        assert!(!same);
        assert!(!(pair[0].is_delete() && pair[1].is_insert()));
    }
    let base: usize = ops.iter().filter(|op| !op.is_insert()).map(|op| op.len()).sum();
    let target: usize = ops.iter().filter(|op| !op.is_delete()).map(|op| op.len()).sum();
    assert_eq!(d.base_len(), base);
    assert_eq!(d.target_len(), target);
}

#[test]
fn random_deltas_obey_the_laws() {
    let mut dice = Dice(0x9e3779b97f4a7c15);
    for _ in 0..400 {
        let doc = random_text(&mut dice, 8);
        let len = doc.chars().count();
        let a = random_delta(&mut dice, len);
        let b = random_delta(&mut dice, len);
        assert_canonical(&a);
        let after_a = a.apply(&doc).unwrap();
        let after_b = b.apply(&doc).unwrap();
        assert_eq!(after_a.chars().count(), a.target_len());
        // transformation: both orders meet
        let (a1, b1) = a.transform(&b).unwrap();
        assert_canonical(&a1);
        assert_canonical(&b1);
        assert_eq!(b1.apply(&after_a).unwrap(), a1.apply(&after_b).unwrap());
        // composition: at once what the two do in turn
        let c = random_delta(&mut dice, after_a.chars().count());
        let both = a.compose(&c).unwrap();
        assert_canonical(&both);
        assert_eq!(both.apply(&doc).unwrap(), c.apply(&after_a).unwrap());
        // the byte format gives the delta back
        let back = Delta::from_bytes(&both.to_bytes()).unwrap();
        assert_eq!(back, both);
    }
}

use perso::index::{IndexEntry, Match, VectorIndex};
use perso::score::Score;
use perso::vector::dot_product;

fn entry(text: &str, embedding: Vec<i8>) -> IndexEntry {
    IndexEntry { text: text.to_string(), embedding }
}

fn texts(found: &Vec<Match>) -> Vec<String> {
    found.iter().map(|m| m.text.clone()).collect()
}

fn ids(found: &Vec<Match>) -> Vec<usize> {
    found.iter().map(|m| m.id).collect()
}

#[test]
fn dot_product_exact_values() {
    assert_eq!(dot_product(&vec![1, 2, 3], &vec![4, -5, 6]), 12);
    assert_eq!(dot_product(&vec![], &vec![]), 0);
    assert_eq!(dot_product(&vec![-128, -128], &vec![-128, -128]), 32768);
    assert_eq!(dot_product(&vec![127, -128], &vec![-128, 127]), -32512);
}

#[test]
fn dot_product_at_the_largest_dimension() {
    let a: Vec<i8> = vec![-128; 65535];
    assert_eq!(dot_product(&a, &a), 16384 * 65535);
    let b: Vec<i8> = vec![127; 65535];
    assert_eq!(dot_product(&a, &b), -16256 * 65535);
}

#[test]
fn score_is_signed_squared_cosine() {
    let s = Score::of(&vec![3, 4], &vec![4, 3]);
    assert_eq!((s.num, s.den), (576, 625));
    let s = Score::of(&vec![3, 4], &vec![-4, -3]);
    assert_eq!((s.num, s.den), (-576, 625));
    let s = Score::of(&vec![1, 0], &vec![0, 1]);
    assert_eq!((s.num, s.den), (0, 1));
    let s = Score::of(&vec![2, 0], &vec![5, 0]);
    assert_eq!((s.num, s.den), (100, 100));
}

#[test]
fn score_of_a_zero_vector_is_zero() {
    let s = Score::of(&vec![0, 0], &vec![4, 3]);
    assert_eq!((s.num, s.den), (0, 1));
    let s = Score::of(&vec![4, 3], &vec![0, 0]);
    assert_eq!((s.num, s.den), (0, 1));
}

#[test]
fn score_at_the_largest_dimension_stays_in_range() {
    let a: Vec<i8> = vec![-128; 65535];
    let s = Score::of(&a, &a);
    let n: i64 = 16384 * 65535;
    assert_eq!((s.num, s.den), (n * n, n * n));
    let b: Vec<i8> = vec![127; 65535];
    let t = Score::of(&a, &b);
    assert!(s.gt(&t));
    assert!(!t.gt(&s));
    assert!(s.same(&s));
}

#[test]
fn score_comparison_is_by_fraction() {
    let half = Score { num: 1, den: 2 };
    let two_quarters = Score { num: 2, den: 4 };
    let third = Score { num: 1, den: 3 };
    let minus = Score { num: -1, den: 3 };
    assert!(half.same(&two_quarters));
    assert!(!half.gt(&two_quarters));
    assert!(half.gt(&third));
    assert!(!third.gt(&half));
    assert!(third.gt(&minus));
    assert!(!minus.same(&third));
}

#[test]
fn document_is_top_match_for_its_own_embedding() {
    let v: Vec<i8> = vec![12, -7, 33, 0, 5];
    let index = VectorIndex::build(vec![entry("The sky is blue.", v.clone())]);
    let found = index.query(&v, 1);
    assert_eq!(texts(&found), vec!["The sky is blue.".to_string()]);
    assert_eq!(found[0].id, 0);
    assert_eq!(found[0].score.num, found[0].score.den);
}

#[test]
fn own_embedding_wins_among_many() {
    let index = VectorIndex::build(vec![
        entry("a", vec![10, 0, 0]),
        entry("b", vec![7, 7, 0]),
        entry("c", vec![3, 4, 12]),
        entry("d", vec![-3, -4, -12]),
    ]);
    let found = index.query(&vec![3, 4, 12], 1);
    assert_eq!(texts(&found), vec!["c".to_string()]);
}

#[test]
fn query_returns_at_most_k_entries() {
    let index = VectorIndex::build(vec![
        entry("a", vec![1, 0]),
        entry("b", vec![0, 1]),
        entry("c", vec![1, 1]),
    ]);
    assert_eq!(index.query(&vec![1, 0], 0).len(), 0);
    assert_eq!(index.query(&vec![1, 0], 1).len(), 1);
    assert_eq!(index.query(&vec![1, 0], 2).len(), 2);
    assert_eq!(index.query(&vec![1, 0], 3).len(), 3);
    assert_eq!(index.query(&vec![1, 0], 4).len(), 3);
    assert_eq!(index.query(&vec![1, 0], usize::MAX).len(), 3);
}

#[test]
fn empty_index_returns_nothing() {
    let index = VectorIndex::build(vec![]);
    assert!(index.is_empty());
    assert_eq!(index.len(), 0);
    assert_eq!(index.dims(), 0);
    assert_eq!(index.query(&vec![1, 2, 3], 3).len(), 0);
    assert_eq!(index.query(&vec![], 0).len(), 0);
}

#[test]
fn results_are_ordered_by_similarity() {
    let index = VectorIndex::build(vec![
        entry("opposite", vec![-10, 0]),
        entry("orthogonal", vec![0, 10]),
        entry("near", vec![9, 1]),
        entry("same", vec![5, 0]),
        entry("diagonal", vec![4, 4]),
    ]);
    let found = index.query(&vec![1, 0], 5);
    assert_eq!(ids(&found), vec![3, 2, 4, 1, 0]);
    assert_eq!(
        texts(&found),
        vec!["same", "near", "diagonal", "orthogonal", "opposite"]
    );
    for w in found.windows(2) {
        assert!(!w[1].score.gt(&w[0].score));
    }
    assert_eq!((found[0].score.num, found[0].score.den), (25, 25));
    assert_eq!((found[1].score.num, found[1].score.den), (81, 82));
    assert_eq!((found[4].score.num, found[4].score.den), (-100, 100));
}

#[test]
fn direction_counts_not_length() {
    let index = VectorIndex::build(vec![
        entry("long but off", vec![100, 100]),
        entry("short but aligned", vec![1, 0]),
    ]);
    let found = index.query(&vec![50, 0], 2);
    assert_eq!(ids(&found), vec![1, 0]);
}

#[test]
fn tied_scores_keep_insertion_order() {
    let index = VectorIndex::build(vec![
        entry("first", vec![2, 0]),
        entry("low", vec![0, 3]),
        entry("second", vec![4, 0]),
        entry("third", vec![1, 0]),
    ]);
    let found = index.query(&vec![7, 0], 4);
    assert_eq!(ids(&found), vec![0, 2, 3, 1]);
    let found = index.query(&vec![7, 0], 2);
    assert_eq!(ids(&found), vec![0, 2]);
}

#[test]
fn zero_query_ranks_by_insertion_order() {
    let index = VectorIndex::build(vec![
        entry("a", vec![0, 9]),
        entry("b", vec![9, 0]),
        entry("c", vec![-9, 0]),
    ]);
    let found = index.query(&vec![0, 0], 3);
    assert_eq!(ids(&found), vec![0, 1, 2]);
}

#[test]
fn zero_entry_sits_between_positive_and_negative() {
    let index = VectorIndex::build(vec![
        entry("against", vec![-1, 0]),
        entry("zero", vec![0, 0]),
        entry("with", vec![1, 0]),
    ]);
    let found = index.query(&vec![1, 0], 3);
    assert_eq!(ids(&found), vec![2, 1, 0]);
}

#[test]
fn buildable_checks_dimensions() {
    assert!(VectorIndex::buildable(&vec![]));
    assert!(VectorIndex::buildable(&vec![entry("a", vec![1, 2]), entry("b", vec![3, 4])]));
    assert!(!VectorIndex::buildable(&vec![entry("a", vec![1, 2]), entry("b", vec![3])]));
    assert!(!VectorIndex::buildable(&vec![entry("a", vec![]), entry("b", vec![3])]));
    assert!(VectorIndex::buildable(&vec![entry("a", vec![0; 65535])]));
    assert!(!VectorIndex::buildable(&vec![entry("a", vec![0; 65536])]));
}

#[test]
fn accepts_checks_the_query_dimension() {
    let index = VectorIndex::build(vec![entry("a", vec![1, 2])]);
    assert_eq!(index.dims(), 2);
    assert!(index.accepts(&vec![5, 6]));
    assert!(!index.accepts(&vec![5]));
    let empty = VectorIndex::build(vec![]);
    assert!(empty.accepts(&vec![5, 6, 7]));
    assert!(empty.accepts(&vec![0; 65536]));
    assert_eq!(empty.query(&vec![0; 65536], 2).len(), 0);
}

#[test]
fn admits_checks_the_entry_dimension() {
    let index = VectorIndex::build(vec![entry("a", vec![1, 2])]);
    assert!(index.admits(&entry("b", vec![3, 4])));
    assert!(!index.admits(&entry("b", vec![3, 4, 5])));
    assert!(!index.admits(&entry("b", vec![])));
    let empty = VectorIndex::build(vec![]);
    assert!(empty.admits(&entry("b", vec![])));
    assert!(empty.admits(&entry("b", vec![0; 65535])));
    assert!(!empty.admits(&entry("b", vec![0; 65536])));
}

#[test]
fn insert_appends_after_existing_entries() {
    let mut index = VectorIndex::build(vec![entry("a", vec![1, 0])]);
    index.insert(entry("b", vec![2, 0]));
    index.insert(entry("c", vec![0, 1]));
    assert_eq!(index.len(), 3);
    let found = index.query(&vec![1, 0], 3);
    assert_eq!(ids(&found), vec![0, 1, 2]);
    let found = index.query(&vec![0, 1], 1);
    assert_eq!(texts(&found), vec!["c".to_string()]);
}

#[test]
fn insert_into_empty_index_sets_the_dimension() {
    let mut index = VectorIndex::build(vec![]);
    index.insert(entry("a", vec![1, 2, 3]));
    assert_eq!(index.dims(), 3);
    assert!(!index.is_empty());
}
